//! One display monitor as the library sees it: what identifies it, and the
//! two flags that a run keeps for it.
use vstd::prelude::*;
use vstd::string::*;
use crate::input_source::{InputSource, InputSourceRaw, text_of_code};
use crate::text::{contains_str, contains_text, join, joined, views};

verus! {

/// A display monitor.
///
/// `device` is the position of the monitor in the caller's enumeration of
/// the hardware; `id` and `backend` are what the hardware reports. The
/// capabilities flag goes from false to true once and stays; the settle
/// flag is raised by a successful write and lowered by the settle that
/// follows.
pub struct Monitor {
    pub device: usize,
    pub id: String,
    pub backend: String,
    pub is_capabilities_updated: bool,
    pub needs_sleep: bool,
}

/// The text of a monitor's current input source: its name or decimal, or
/// the text of the error that reading it gave.
pub open spec fn current_text(current: Result<InputSourceRaw, String>) -> Seq<char> {
    match current {
        Ok(v) => text_of_code(v),
        Err(e) => e@,
    }
}

/// The texts of a list of codes.
pub open spec fn code_texts(codes: Seq<InputSourceRaw>) -> Seq<Seq<char>> {
    codes.map_values(|v: InputSourceRaw| text_of_code(v))
}

/// The lines that describe a monitor.
pub open spec fn description_lines(
    id: Seq<char>,
    backend: Seq<char>,
    current: Result<InputSourceRaw, String>,
    sources: Option<Seq<InputSourceRaw>>,
    model: Option<Seq<char>>,
) -> Seq<Seq<char>> {
    let head = seq![id, "Input Source: "@ + current_text(current)];
    let with_sources = match sources {
        Some(codes) => head.push("Input Sources: "@ + joined(code_texts(codes), ", "@)),
        None => head,
    };
    let with_model = match model {
        Some(m) => with_sources.push("Model: "@ + m),
        None => with_sources,
    };
    with_model.push("Backend: "@ + backend)
}

/// The text that describes a monitor: its lines, each one after the first
/// indented under it.
pub open spec fn description(
    id: Seq<char>,
    backend: Seq<char>,
    current: Result<InputSourceRaw, String>,
    sources: Option<Seq<InputSourceRaw>>,
    model: Option<Seq<char>>,
) -> Seq<char> {
    joined(description_lines(id, backend, current, sources, model), "\n    "@)
}

fn prefixed(prefix: &str, s: &str) -> (r: String)
    ensures
        r@ == prefix@ + s@,
{
    String::from_str(prefix).concat(s)
}

fn codes_text(codes: &Vec<InputSourceRaw>) -> (r: String)
    ensures
        r@ == joined(code_texts(codes@), ", "@),
{
    let mut texts: Vec<String> = Vec::new();
    let mut i: usize = 0;
    while i < codes.len()
        invariant
            i <= codes@.len(),
            texts@.len() == i,
            forall|j: int| 0 <= j < i ==> (#[trigger] texts@[j])@ == text_of_code(codes@[j]),
        decreases codes@.len() - i,
    {
        let t = InputSource::str_from_raw(codes[i]);
        texts.push(t);
        i = i + 1;
    }
    assert(views(texts@) =~= code_texts(codes@));
    join(&texts, ", ")
}

impl Monitor {
    /// A monitor as enumerated, with both flags down.
    pub fn new(device: usize, id: String, backend: String) -> (r: Monitor)
        ensures
            r.device == device,
            r.id@ == id@,
            r.backend@ == backend@,
            !r.is_capabilities_updated,
            !r.needs_sleep,
    {
        Monitor { device, id, backend, is_capabilities_updated: false, needs_sleep: false }
    }

    /// Whether the backend's name holds `backend`.
    pub fn contains_backend(&self, backend: &str) -> (r: bool)
        ensures
            r == contains_text(self.backend@, backend@),
    {
        contains_str(self.backend.as_str(), backend)
    }

    /// Whether the monitor's identifier holds `name`.
    pub fn contains(&self, name: &str) -> (r: bool)
        ensures
            r == contains_text(self.id@, name@),
    {
        contains_str(self.id.as_str(), name)
    }

    /// Marks the capabilities as asked for, and says whether they still had
    /// to be: they are asked for at most once in a run, and not again after
    /// a failure.
    pub fn update_capabilities(&mut self) -> (fetch: bool)
        ensures
            fetch == !old(self).is_capabilities_updated,
            final(self).is_capabilities_updated,
            final(self).needs_sleep == old(self).needs_sleep,
            final(self).device == old(self).device,
            final(self).id == old(self).id,
            final(self).backend == old(self).backend,
    {
        let fetch = !self.is_capabilities_updated;
        self.is_capabilities_updated = true;
        fetch
    }

    /// Records a successful write of the input source: the monitor now needs
    /// to settle.
    pub fn record_write(&mut self)
        ensures
            final(self).needs_sleep,
            final(self).is_capabilities_updated == old(self).is_capabilities_updated,
            final(self).device == old(self).device,
            final(self).id == old(self).id,
            final(self).backend == old(self).backend,
    {
        self.needs_sleep = true;
    }

    /// Lowers the settle flag, and says whether it was up, that is whether
    /// the monitor must now be given its settle time.
    pub fn sleep_if_needed(&mut self) -> (sleep: bool)
        ensures
            sleep == old(self).needs_sleep,
            !final(self).needs_sleep,
            final(self).is_capabilities_updated == old(self).is_capabilities_updated,
            final(self).device == old(self).device,
            final(self).id == old(self).id,
            final(self).backend == old(self).backend,
    {
        let sleep = self.needs_sleep;
        self.needs_sleep = false;
        sleep
    }

    /// The text that describes the monitor, given what reading its current
    /// input source gave, the input sources it advertises, and its model.
    pub fn to_long_string(
        &self,
        current: &Result<InputSourceRaw, String>,
        sources: &Option<Vec<InputSourceRaw>>,
        model: &Option<String>,
    ) -> (r: String)
        ensures
            r@ == description(
                self.id@,
                self.backend@,
                *current,
                match sources {
                    Some(v) => Some(v@),
                    None => None,
                },
                match model {
                    Some(m) => Some(m@),
                    None => None,
                },
            ),
    {
        let mut lines: Vec<String> = Vec::new();
        lines.push(self.id.clone());
        let current_line = match current {
            Ok(v) => {
                let t = InputSource::str_from_raw(*v);
                prefixed("Input Source: ", t.as_str())
            },
            Err(e) => prefixed("Input Source: ", e.as_str()),
        };
        lines.push(current_line);
        if let Some(codes) = sources {
            let t = codes_text(codes);
            lines.push(prefixed("Input Sources: ", t.as_str()));
        }
        if let Some(m) = model {
            lines.push(prefixed("Model: ", m.as_str()));
        }
        lines.push(prefixed("Backend: ", self.backend.as_str()));
        let ghost want = description_lines(
            self.id@,
            self.backend@,
            *current,
            match sources {
                Some(v) => Some(v@),
                None => None,
            },
            match model {
                Some(m) => Some(m@),
                None => None,
            },
        );
        assert(views(lines@) =~= want);
        join(&lines, "\n    ")
    }
}

} // verus!
