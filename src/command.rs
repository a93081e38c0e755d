//! What one command-line argument asks for.
use vstd::prelude::*;
use vstd::string::*;
use crate::decimal::push_char;
use crate::error::Error;
use crate::input_source::{InputSource, InputSourceRaw, code_of_text};

verus! {

/// `arg` reads `name=value`: a name of at least one character and no `=`,
/// then `=`, then a value of at least one character and no line feed.
pub open spec fn is_assignment(arg: Seq<char>, name: Seq<char>, value: Seq<char>) -> bool {
    &&& name.len() > 0
    &&& value.len() > 0
    &&& forall|i: int| 0 <= i < name.len() ==> name[i] != '='
    &&& forall|i: int| 0 <= i < value.len() ==> value[i] != '\n'
    &&& arg == name + seq!['='] + value
}

/// The name and the value of `arg`, if it reads `name=value`.
pub open spec fn assignment_parts(arg: Seq<char>) -> Option<(Seq<char>, Seq<char>)> {
    if exists|name: Seq<char>, value: Seq<char>| is_assignment(arg, name, value) {
        Some(choose|name: Seq<char>, value: Seq<char>| is_assignment(arg, name, value))
    } else {
        None
    }
}

/// A text reads `name=value` in one way at most: the name ends at the first `=`.
proof fn lemma_assignment_unique(arg: Seq<char>, n1: Seq<char>, v1: Seq<char>, n2: Seq<char>, v2: Seq<char>)
    requires
        is_assignment(arg, n1, v1),
        is_assignment(arg, n2, v2),
    ensures
        n1 == n2,
        v1 == v2,
{
    if n1.len() < n2.len() {
        assert(arg[n1.len() as int] == '=');
        assert(arg[n1.len() as int] == n2[n1.len() as int]);
    } else if n2.len() < n1.len() {
        assert(arg[n2.len() as int] == '=');
        assert(arg[n2.len() as int] == n1[n2.len() as int]);
    }
    assert(n1 =~= arg.take(n1.len() as int));
    assert(n2 =~= arg.take(n2.len() as int));
    assert(v1 =~= arg.skip(n1.len() as int + 1));
    assert(v2 =~= arg.skip(n2.len() as int + 1));
}

const ASSIGNMENT_PATTERN: &'static str = r"^([^=]+)=(.+)$";

/// Relies on `regex::Regex::captures` with the pattern `^([^=]+)=(.+)$`,
/// whose groups 1 and 2 are the name and the value: `[^=]` matches any
/// character but `=`, `.` any character but a line feed, and `^`, `$` the
/// start and the end of the text. `Regex::new` accepts that pattern.
#[verifier::external_body]
fn assignment_captures(arg: &str) -> (r: Option<(String, String)>)
    ensures
        match r {
            Some((name, value)) => is_assignment(arg@, name@, value@),
            None => forall|name: Seq<char>, value: Seq<char>| !is_assignment(arg@, name, value),
        },
{
    let re = regex::Regex::new(ASSIGNMENT_PATTERN).unwrap();
    match re.captures(arg) {
        Some(c) => Some((c[1].to_string(), c[2].to_string())),
        None => None,
    }
}

/// Splits `arg` into the name and the value of `name=value`, or gives
/// `None` when it does not read so.
pub fn split_assignment(arg: &str) -> (r: Option<(String, String)>)
    ensures
        match r {
            Some((name, value)) => assignment_parts(arg@) == Some((name@, value@)),
            None => assignment_parts(arg@) is None,
        },
{
    let r = assignment_captures(arg);
    proof {
        if r is Some {
            let (name, value) = r->0;
            let (n, v) = choose|n: Seq<char>, v: Seq<char>| is_assignment(arg@, n, v);
            lemma_assignment_unique(arg@, name@, value@, n, v);
        }
    }
    r
}

/// The parts of `s` between the separators `sep`; one part more than there
/// are separators.
pub open spec fn split_on(s: Seq<char>, sep: char) -> Seq<Seq<char>>
    decreases s.len(),
{
    if s.len() == 0 {
        seq![Seq::empty()]
    } else {
        let parts = split_on(s.drop_last(), sep);
        if s.last() == sep {
            parts.push(Seq::empty())
        } else {
            parts.update(parts.len() - 1, parts.last().push(s.last()))
        }
    }
}

pub(crate) proof fn lemma_split_on_len(s: Seq<char>, sep: char)
    ensures
        split_on(s, sep).len() >= 1,
    decreases s.len(),
{
    if s.len() > 0 {
        lemma_split_on_len(s.drop_last(), sep);
    }
}

proof fn lemma_split_on_many(s: Seq<char>, sep: char)
    ensures
        split_on(s, sep).len() > 1 <==> has_char(s, sep),
    decreases s.len(),
{
    lemma_split_on_len(s, sep);
    if s.len() > 0 {
        let init = s.drop_last();
        lemma_split_on_many(init, sep);
        lemma_split_on_len(init, sep);
        if has_char(init, sep) {
            let i = choose|i: int| 0 <= i < init.len() && init[i] == sep;
            assert(s[i] == sep);
        }
        if has_char(s, sep) && s.last() != sep {
            let i = choose|i: int| 0 <= i < s.len() && s[i] == sep;
            assert(init[i] == sep);
        }
    }
}

/// The parts of `s` between the separators `sep`.
pub fn split_str(s: &str, sep: char) -> (r: Vec<String>)
    ensures
        r@.len() == split_on(s@, sep).len(),
        forall|i: int| 0 <= i < r@.len() ==> (#[trigger] r@[i])@ == split_on(s@, sep)[i],
{
    let n = s.unicode_len();
    let mut parts: Vec<String> = Vec::new();
    let mut current = String::new();
    let mut i: usize = 0;
    assert(s@.take(0) =~= Seq::<char>::empty());
    while i < n
        invariant
            i <= n,
            n == s@.len(),
            parts@.len() + 1 == split_on(s@.take(i as int), sep).len(),
            forall|j: int| 0 <= j < parts@.len() ==> (#[trigger] parts@[j])@ == split_on(s@.take(i as int), sep)[j],
            current@ == split_on(s@.take(i as int), sep).last(),
        decreases n - i,
    {
        let c = s.get_char(i);
        let ghost prev = split_on(s@.take(i as int), sep);
        proof {
            assert(s@.take(i + 1).drop_last() =~= s@.take(i as int));
            lemma_split_on_len(s@.take(i as int), sep);
        }
        if c == sep {
            parts.push(current);
            current = String::new();
        } else {
            push_char(&mut current, c);
        }
        i = i + 1;
    }
    assert(s@.take(n as int) =~= s@);
    parts.push(current);
    parts
}

/// What an argument asks for, with the text that selects the monitors.
pub enum Command {
    /// Describe the selected monitors.
    Lookup(String),
    /// Set the input source of the selected monitors.
    Assign(String, InputSourceRaw),
    /// Move the selected monitors to the input source after the current one
    /// in the list.
    Toggle(String, Vec<InputSourceRaw>),
}

/// `s` holds the character `c`.
pub open spec fn has_char(s: Seq<char>, c: char) -> bool {
    exists|i: int| 0 <= i < s.len() && s[i] == c
}

/// The codes of the texts, or the first text that stands for no code.
pub open spec fn codes_of_texts(texts: Seq<Seq<char>>) -> Result<Seq<InputSourceRaw>, Seq<char>>
    decreases texts.len(),
{
    if texts.len() == 0 {
        Ok(Seq::empty())
    } else {
        match codes_of_texts(texts.drop_last()) {
            Err(t) => Err(t),
            Ok(codes) => match code_of_text(texts.last()) {
                Some(c) => Ok(codes.push(c)),
                None => Err(texts.last()),
            },
        }
    }
}

proof fn lemma_codes_of_texts_err(texts: Seq<Seq<char>>, k: int)
    requires
        0 <= k <= texts.len(),
        codes_of_texts(texts.take(k)) is Err,
    ensures
        codes_of_texts(texts) == codes_of_texts(texts.take(k)),
    decreases texts.len() - k,
{
    if k < texts.len() {
        assert(texts.take(k + 1).drop_last() =~= texts.take(k));
        lemma_codes_of_texts_err(texts, k + 1);
    } else {
        assert(texts.take(k) =~= texts);
    }
}

fn codes_of_parts(parts: &Vec<String>) -> (r: Result<Vec<InputSourceRaw>, Error>)
    ensures
        match r {
            Ok(codes) => codes_of_texts(parts@.map_values(|p: String| p@)) == Ok::<Seq<InputSourceRaw>, Seq<char>>(codes@),
            Err(e) => codes_of_texts(parts@.map_values(|p: String| p@)) is Err
                && e == Error::InvalidInputSource(e->InvalidInputSource_0)
                && e->InvalidInputSource_0@ == codes_of_texts(parts@.map_values(|p: String| p@))->Err_0,
        },
{
    let ghost texts = parts@.map_values(|p: String| p@);
    let mut codes: Vec<InputSourceRaw> = Vec::new();
    let mut i: usize = 0;
    assert(texts.take(0) =~= Seq::<Seq<char>>::empty());
    while i < parts.len()
        invariant
            i <= parts@.len(),
            texts == parts@.map_values(|p: String| p@),
            codes_of_texts(texts.take(i as int)) == Ok::<Seq<InputSourceRaw>, Seq<char>>(codes@),
        decreases parts@.len() - i,
    {
        proof {
            assert(texts.take(i + 1).drop_last() =~= texts.take(i as int));
            assert(texts.take(i + 1).last() == parts@[i as int]@);
        }
        match InputSource::raw_from_str(parts[i].as_str()) {
            Ok(c) => codes.push(c),
            Err(e) => {
                proof {
                    lemma_codes_of_texts_err(texts, i + 1);
                }
                return Err(e);
            },
        }
        i = i + 1;
    }
    assert(texts.take(parts@.len() as int) =~= texts);
    Ok(codes)
}

/// The part of `arg` that stands for no code, if any: the value of
/// `name=value`, or the first of its comma-separated parts.
pub open spec fn parse_error(arg: Seq<char>) -> Option<Seq<char>> {
    match assignment_parts(arg) {
        None => None,
        Some((n, v)) => if !has_char(v, ',') {
            if code_of_text(v) is None {
                Some(v)
            } else {
                None
            }
        } else {
            match codes_of_texts(split_on(v, ',')) {
                Ok(_) => None,
                Err(t) => Some(t),
            }
        },
    }
}

/// The text of `arg` that selects the monitors: the name of `name=value`,
/// else the whole argument.
pub open spec fn text_target(arg: Seq<char>) -> Seq<char> {
    match assignment_parts(arg) {
        None => arg,
        Some((n, _)) => n,
    }
}

/// `c` is what `arg` asks for, when no part of it is invalid.
pub open spec fn command_fits(arg: Seq<char>, c: Command) -> bool {
    match assignment_parts(arg) {
        None => (c matches Command::Lookup(s) && s@ == arg),
        Some((n, v)) => if !has_char(v, ',') {
            (c matches Command::Assign(s, code) && s@ == n && code_of_text(v) == Some(code))
        } else {
            (c matches Command::Toggle(s, list) && s@ == n && codes_of_texts(split_on(v, ',')) == Ok::<
                Seq<InputSourceRaw>,
                Seq<char>,
            >(list@))
        },
    }
}

impl Command {
    /// What `arg` asks for. `name=value` sets the input source of the
    /// monitors that `name` selects to the code that `value` stands for;
    /// where `value` holds commas, its parts are the list to toggle through.
    /// Any other argument is a lookup. A part that stands for no code is an
    /// [`Error::InvalidInputSource`] that holds it: the first one, in order.
    pub fn parse(arg: &str) -> (r: Result<Command, Error>)
        ensures
            match r {
                Ok(c) => parse_error(arg@) is None && command_fits(arg@, c),
                Err(e) => (parse_error(arg@) matches Some(t) && (e matches Error::InvalidInputSource(s)
                    && s@ == t)),
            },
    {
        match split_assignment(arg) {
            None => Ok(Command::Lookup(String::from_str(arg))),
            Some((name, value)) => {
                let parts = split_str(value.as_str(), ',');
                proof {
                    lemma_split_on_many(value@, ',');
                }
                if parts.len() > 1 {
                    proof {
                        assert(parts@.map_values(|p: String| p@) =~= split_on(value@, ','));
                    }
                    match codes_of_parts(&parts) {
                        Ok(codes) => Ok(Command::Toggle(name, codes)),
                        Err(e) => Err(e),
                    }
                } else {
                    match InputSource::raw_from_str(value.as_str()) {
                        Ok(c) => Ok(Command::Assign(name, c)),
                        Err(e) => Err(e),
                    }
                }
            },
        }
    }
}

} // verus!
