//! Input-source codes: the named ones, and the text each code is read from
//! and written as.
use vstd::prelude::*;
use vstd::string::*;
use crate::decimal::{
    decimal, decimal_string, is_digit, lemma_parse_decimal, parse_unsigned, parse_unsigned_at_most,
    unsigned_digits,
};
use crate::error::Error;

verus! {

/// The raw value of the input-select feature of a monitor.
/// Any byte is a valid code; some of them have a name ([`InputSource`]).
pub type InputSourceRaw = u8;

/// The input sources that have a name.
#[derive(Copy, Clone, Debug, PartialEq, Eq, Structural)]
pub enum InputSource {
    DisplayPort1,
    DisplayPort2,
    Hdmi1,
    Hdmi2,
    UsbC1,
    UsbC2,
}

impl InputSource {
    /// The code of this input source.
    pub open spec fn code(self) -> InputSourceRaw {
        match self {
            InputSource::DisplayPort1 => 0x0F,
            InputSource::DisplayPort2 => 0x10,
            InputSource::Hdmi1 => 0x11,
            InputSource::Hdmi2 => 0x12,
            InputSource::UsbC1 => 0x19,
            InputSource::UsbC2 => 0x1B,
        }
    }

    /// The name this input source is written as.
    pub open spec fn spec_name(self) -> Seq<char> {
        match self {
            InputSource::DisplayPort1 => seq!['D', 'P', '1'],
            InputSource::DisplayPort2 => seq!['D', 'P', '2'],
            InputSource::Hdmi1 => seq!['H', 'd', 'm', 'i', '1'],
            InputSource::Hdmi2 => seq!['H', 'd', 'm', 'i', '2'],
            InputSource::UsbC1 => seq!['U', 's', 'b', 'C', '1'],
            InputSource::UsbC2 => seq!['U', 's', 'b', 'C', '2'],
        }
    }
}

/// The named input source with code `v`, if there is one.
pub open spec fn input_source_of_code(v: InputSourceRaw) -> Option<InputSource> {
    if v == 0x0F {
        Some(InputSource::DisplayPort1)
    } else if v == 0x10 {
        Some(InputSource::DisplayPort2)
    } else if v == 0x11 {
        Some(InputSource::Hdmi1)
    } else if v == 0x12 {
        Some(InputSource::Hdmi2)
    } else if v == 0x19 {
        Some(InputSource::UsbC1)
    } else if v == 0x1B {
        Some(InputSource::UsbC2)
    } else {
        None
    }
}

/// `c` with an ASCII capital letter taken to its small letter, as a number.
pub open spec fn ascii_fold(c: char) -> int {
    if 'A' <= c && c <= 'Z' {
        c as int + 32
    } else {
        c as int
    }
}

/// `a` and `b` are the same text up to the case of ASCII letters.
pub open spec fn same_ignoring_ascii_case(a: Seq<char>, b: Seq<char>) -> bool {
    a.len() == b.len() && forall|i: int| 0 <= i < a.len() ==> ascii_fold(#[trigger] a[i]) == ascii_fold(b[i])
}

/// The input source whose name is `s`, up to the case of ASCII letters.
pub open spec fn input_source_named(s: Seq<char>) -> Option<InputSource> {
    if same_ignoring_ascii_case(s, InputSource::DisplayPort1.spec_name()) {
        Some(InputSource::DisplayPort1)
    } else if same_ignoring_ascii_case(s, InputSource::DisplayPort2.spec_name()) {
        Some(InputSource::DisplayPort2)
    } else if same_ignoring_ascii_case(s, InputSource::Hdmi1.spec_name()) {
        Some(InputSource::Hdmi1)
    } else if same_ignoring_ascii_case(s, InputSource::Hdmi2.spec_name()) {
        Some(InputSource::Hdmi2)
    } else if same_ignoring_ascii_case(s, InputSource::UsbC1.spec_name()) {
        Some(InputSource::UsbC1)
    } else if same_ignoring_ascii_case(s, InputSource::UsbC2.spec_name()) {
        Some(InputSource::UsbC2)
    } else {
        None
    }
}

/// The code that the text `s` stands for: a decimal number that fits a
/// code, else the code of the input source that `s` names.
pub open spec fn code_of_text(s: Seq<char>) -> Option<InputSourceRaw> {
    if parse_unsigned(s) is Some && parse_unsigned(s)->0 <= 255 {
        Some(parse_unsigned(s)->0 as InputSourceRaw)
    } else {
        match input_source_named(s) {
            Some(v) => Some(v.code()),
            None => None,
        }
    }
}

/// The text that the code `v` is written as: its name, else its decimal.
pub open spec fn text_of_code(v: InputSourceRaw) -> Seq<char> {
    match input_source_of_code(v) {
        Some(s) => s.spec_name(),
        None => decimal(v as nat),
    }
}

fn ascii_fold_char(c: char) -> (r: u32)
    ensures
        r as int == ascii_fold(c),
{
    if 'A' <= c && c <= 'Z' {
        c as u32 + 32
    } else {
        c as u32
    }
}

/// Whether `a` and `b` are the same text up to the case of ASCII letters.
pub fn eq_ignore_ascii_case(a: &str, b: &str) -> (r: bool)
    ensures
        r == same_ignoring_ascii_case(a@, b@),
{
    let n = a.unicode_len();
    if n != b.unicode_len() {
        return false;
    }
    let mut i: usize = 0;
    while i < n
        invariant
            i <= n,
            n == a@.len(),
            n == b@.len(),
            forall|j: int| 0 <= j < i ==> ascii_fold(#[trigger] a@[j]) == ascii_fold(b@[j]),
        decreases n - i,
    {
        if ascii_fold_char(a.get_char(i)) != ascii_fold_char(b.get_char(i)) {
            return false;
        }
        i = i + 1;
    }
    true
}

fn invalid_input_source(s: &str) -> (e: Error)
    ensures
        e == Error::InvalidInputSource(e->InvalidInputSource_0),
        e->InvalidInputSource_0@ == s@,
{
    Error::InvalidInputSource(String::from_str(s))
}

impl InputSource {
    /// The code of this input source.
    pub fn as_raw(self) -> (r: InputSourceRaw)
        ensures
            r == self.code(),
    {
        match self {
            InputSource::DisplayPort1 => 0x0F,
            InputSource::DisplayPort2 => 0x10,
            InputSource::Hdmi1 => 0x11,
            InputSource::Hdmi2 => 0x12,
            InputSource::UsbC1 => 0x19,
            InputSource::UsbC2 => 0x1B,
        }
    }

    /// The named input source with code `value`, if there is one.
    pub fn from_raw(value: InputSourceRaw) -> (r: Option<InputSource>)
        ensures
            r == input_source_of_code(value),
    {
        if value == 0x0F {
            Some(InputSource::DisplayPort1)
        } else if value == 0x10 {
            Some(InputSource::DisplayPort2)
        } else if value == 0x11 {
            Some(InputSource::Hdmi1)
        } else if value == 0x12 {
            Some(InputSource::Hdmi2)
        } else if value == 0x19 {
            Some(InputSource::UsbC1)
        } else if value == 0x1B {
            Some(InputSource::UsbC2)
        } else {
            None
        }
    }

    /// The name this input source is written as.
    pub fn name(self) -> (r: &'static str)
        ensures
            r@ == self.spec_name(),
    {
        match self {
            InputSource::DisplayPort1 => {
                proof {
                    reveal_strlit("DP1");
                }
                "DP1"
            },
            InputSource::DisplayPort2 => {
                proof {
                    reveal_strlit("DP2");
                }
                "DP2"
            },
            InputSource::Hdmi1 => {
                proof {
                    reveal_strlit("Hdmi1");
                }
                "Hdmi1"
            },
            InputSource::Hdmi2 => {
                proof {
                    reveal_strlit("Hdmi2");
                }
                "Hdmi2"
            },
            InputSource::UsbC1 => {
                proof {
                    reveal_strlit("UsbC1");
                }
                "UsbC1"
            },
            InputSource::UsbC2 => {
                proof {
                    reveal_strlit("UsbC2");
                }
                "UsbC2"
            },
        }
    }

    /// The input source named `s`, up to the case of ASCII letters.
    pub fn from_name(s: &str) -> (r: Option<InputSource>)
        ensures
            r == input_source_named(s@),
    {
        if eq_ignore_ascii_case(s, InputSource::DisplayPort1.name()) {
            Some(InputSource::DisplayPort1)
        } else if eq_ignore_ascii_case(s, InputSource::DisplayPort2.name()) {
            Some(InputSource::DisplayPort2)
        } else if eq_ignore_ascii_case(s, InputSource::Hdmi1.name()) {
            Some(InputSource::Hdmi1)
        } else if eq_ignore_ascii_case(s, InputSource::Hdmi2.name()) {
            Some(InputSource::Hdmi2)
        } else if eq_ignore_ascii_case(s, InputSource::UsbC1.name()) {
            Some(InputSource::UsbC1)
        } else if eq_ignore_ascii_case(s, InputSource::UsbC2.name()) {
            Some(InputSource::UsbC2)
        } else {
            None
        }
    }

    /// The code that `input` stands for: a decimal number from 0 to 255, or
    /// the name of an input source in any ASCII case. Other text is an
    /// [`Error::InvalidInputSource`] that holds `input`.
    pub fn raw_from_str(input: &str) -> (r: Result<InputSourceRaw, Error>)
        ensures
            match r {
                Ok(v) => code_of_text(input@) == Some(v),
                Err(e) => code_of_text(input@) is None && e == Error::InvalidInputSource(e->InvalidInputSource_0)
                    && e->InvalidInputSource_0@ == input@,
            },
    {
        if let Some(value) = parse_unsigned_at_most(input, 255) {
            return Ok(value as InputSourceRaw);
        }
        match InputSource::from_name(input) {
            Some(v) => Ok(v.as_raw()),
            None => Err(invalid_input_source(input)),
        }
    }

    /// The text of the code `value`: the name of its input source, else its
    /// decimal.
    pub fn str_from_raw(value: InputSourceRaw) -> (r: String)
        ensures
            r@ == text_of_code(value),
    {
        match InputSource::from_raw(value) {
            Some(input_source) => String::from_str(input_source.name()),
            None => decimal_string(value as usize),
        }
    }
}

impl std::str::FromStr for InputSource {
    type Err = Error;

    fn from_str(s: &str) -> Result<InputSource, Error> {
        match InputSource::from_name(s) {
            Some(v) => Ok(v),
            None => Err(invalid_input_source(s)),
        }
    }
}

/// Writing the code of a named input source as text and reading that text
/// back gives the code.
pub proof fn lemma_named_code_round_trip(v: InputSource)
    ensures
        code_of_text(text_of_code(v.code())) == Some(v.code()),
{
    let name = v.spec_name();
    assert(input_source_of_code(v.code()) == Some(v));
    assert(!is_digit(name[0]) && name[0] != '+');
    assert(!is_digit(unsigned_digits(name)[0]));
    assert(parse_unsigned(name) is None);
    assert(same_ignoring_ascii_case(name, name));
    match v {
        InputSource::DisplayPort1 => {},
        InputSource::DisplayPort2 => {
            assert(ascii_fold(name[2]) != ascii_fold(InputSource::DisplayPort1.spec_name()[2]));
        },
        InputSource::Hdmi1 => {},
        InputSource::Hdmi2 => {
            assert(ascii_fold(name[4]) != ascii_fold(InputSource::Hdmi1.spec_name()[4]));
        },
        InputSource::UsbC1 => {
            assert(ascii_fold(name[0]) != ascii_fold(InputSource::Hdmi1.spec_name()[0]));
            assert(ascii_fold(name[0]) != ascii_fold(InputSource::Hdmi2.spec_name()[0]));
        },
        InputSource::UsbC2 => {
            assert(ascii_fold(name[0]) != ascii_fold(InputSource::Hdmi1.spec_name()[0]));
            assert(ascii_fold(name[0]) != ascii_fold(InputSource::Hdmi2.spec_name()[0]));
            assert(ascii_fold(name[4]) != ascii_fold(InputSource::UsbC1.spec_name()[4]));
        },
    }
}

/// A code without a name is written as its decimal, and that decimal is
/// read back as the code.
pub proof fn lemma_unnamed_code_round_trip(v: InputSourceRaw)
    requires
        input_source_of_code(v) is None,
    ensures
        text_of_code(v) == decimal(v as nat),
        code_of_text(decimal(v as nat)) == Some(v),
{
    lemma_parse_decimal(v as nat);
}

/// Reading a code from text does not depend on the case of ASCII letters.
pub proof fn lemma_code_ignores_ascii_case(a: Seq<char>, b: Seq<char>)
    requires
        same_ignoring_ascii_case(a, b),
    ensures
        code_of_text(a) == code_of_text(b),
{
    assert forall|i: int| 0 <= i < a.len() && (is_digit(a[i]) || a[i] == '+' || is_digit(b[i]) || b[i]
        == '+') implies a[i] == b[i] by {
        assert(ascii_fold(a[i]) == ascii_fold(b[i]));
    }
    let da = unsigned_digits(a);
    let db = unsigned_digits(b);
    assert(da.len() == db.len());
    assert forall|i: int| 0 <= i < da.len() && (is_digit(da[i]) || is_digit(db[i])) implies da[i]
        == db[i] by {
        if a.len() > 0 && a[0] == '+' {
            assert(da[i] == a[i + 1] && db[i] == b[i + 1]);
        } else {
            assert(da[i] == a[i] && db[i] == b[i]);
        }
    }
    if da.len() > 0 && crate::decimal::all_digits(da) {
        assert(da =~= db);
    } else if db.len() > 0 && crate::decimal::all_digits(db) {
        assert(da =~= db);
    }
    assert(parse_unsigned(a) == parse_unsigned(b));
    assert forall|n: Seq<char>| same_ignoring_ascii_case(a, n) == same_ignoring_ascii_case(b, n) by {
        if same_ignoring_ascii_case(a, n) {
            assert forall|i: int| 0 <= i < b.len() implies ascii_fold(#[trigger] b[i]) == ascii_fold(
                n[i],
            ) by {
                assert(ascii_fold(a[i]) == ascii_fold(n[i]));
            }
        }
        if same_ignoring_ascii_case(b, n) {
            assert forall|i: int| 0 <= i < a.len() implies ascii_fold(#[trigger] a[i]) == ascii_fold(
                n[i],
            ) by {
                assert(ascii_fold(b[i]) == ascii_fold(n[i]));
            }
        }
    }
    assert(input_source_named(a) == input_source_named(b));
}

} // verus!
