use vstd::prelude::*;
use vstd::string::*;
use crate::text::{chars_equal, chars_of};

verus! {

/// Severity of a log record or span, ordered from least to most severe.
#[derive(Debug, Clone, Copy, PartialEq, Eq, Structural, PartialOrd, Ord, Hash)]
pub enum Level {
    Trace,
    Debug,
    Info,
    Warn,
    Error,
    Fatal,
}

impl Level {
    /// The position of the level in the severity order (Trace is 0, Fatal is 5).
    pub open spec fn rank(self) -> int {
        match self {
            Level::Trace => 0,
            Level::Debug => 1,
            Level::Info => 2,
            Level::Warn => 3,
            Level::Error => 4,
            Level::Fatal => 5,
        }
    }

    /// The level whose rank is `r`, if there is one.
    pub open spec fn of_rank(r: int) -> Option<Level> {
        if r == 0 {
            Some(Level::Trace)
        } else if r == 1 {
            Some(Level::Debug)
        } else if r == 2 {
            Some(Level::Info)
        } else if r == 3 {
            Some(Level::Warn)
        } else if r == 4 {
            Some(Level::Error)
        } else if r == 5 {
            Some(Level::Fatal)
        } else {
            None
        }
    }

    /// The upper-case name of the level.
    pub open spec fn name(self) -> Seq<char> {
        match self {
            Level::Trace => seq!['T', 'R', 'A', 'C', 'E'],
            Level::Debug => seq!['D', 'E', 'B', 'U', 'G'],
            Level::Info => seq!['I', 'N', 'F', 'O'],
            Level::Warn => seq!['W', 'A', 'R', 'N'],
            Level::Error => seq!['E', 'R', 'R', 'O', 'R'],
            Level::Fatal => seq!['F', 'A', 'T', 'A', 'L'],
        }
    }

    pub fn as_str(&self) -> (s: &'static str)
        ensures
            s@ == self.name(),
    {
        match self {
            Level::Trace => {
                proof {
                    reveal_strlit("TRACE");
                }
                "TRACE"
            },
            Level::Debug => {
                proof {
                    reveal_strlit("DEBUG");
                }
                "DEBUG"
            },
            Level::Info => {
                proof {
                    reveal_strlit("INFO");
                }
                "INFO"
            },
            Level::Warn => {
                proof {
                    reveal_strlit("WARN");
                }
                "WARN"
            },
            Level::Error => {
                proof {
                    reveal_strlit("ERROR");
                }
                "ERROR"
            },
            Level::Fatal => {
                proof {
                    reveal_strlit("FATAL");
                }
                "FATAL"
            },
        }
    }

    /// `n` parsed as a level by the table of `from_severity`: OTLP severity
    /// numbers 1-4 are TRACE, 5-8 DEBUG, 9-12 INFO, 13-16 WARN, 17-20 ERROR
    /// and 21-24 FATAL.
    pub open spec fn of_severity(n: int) -> Option<Level> {
        if 1 <= n <= 24 {
            Level::of_rank((n - 1) / 4)
        } else {
            None
        }
    }

    pub fn from_severity(severity: i32) -> (r: Option<Level>)
        ensures
            r == Level::of_severity(severity as int),
    {
        if 1 <= severity && severity <= 4 {
            Some(Level::Trace)
        } else if 5 <= severity && severity <= 8 {
            Some(Level::Debug)
        } else if 9 <= severity && severity <= 12 {
            Some(Level::Info)
        } else if 13 <= severity && severity <= 16 {
            Some(Level::Warn)
        } else if 17 <= severity && severity <= 20 {
            Some(Level::Error)
        } else if 21 <= severity && severity <= 24 {
            Some(Level::Fatal)
        } else {
            None
        }
    }

    /// The number under which a level is stored: its rank.
    pub fn to_int(&self) -> (r: i32)
        ensures
            r as int == self.rank(),
    {
        match self {
            Level::Trace => 0,
            Level::Debug => 1,
            Level::Info => 2,
            Level::Warn => 3,
            Level::Error => 4,
            Level::Fatal => 5,
        }
    }

    /// The level stored under the number `n`, if any.
    pub fn from_int(n: i32) -> (r: Option<Level>)
        ensures
            r == Level::of_rank(n as int),
    {
        if n == 0 {
            Some(Level::Trace)
        } else if n == 1 {
            Some(Level::Debug)
        } else if n == 2 {
            Some(Level::Info)
        } else if n == 3 {
            Some(Level::Warn)
        } else if n == 4 {
            Some(Level::Error)
        } else if n == 5 {
            Some(Level::Fatal)
        } else {
            None
        }
    }

    /// Whether `self` is at least as severe as `other`.
    pub open spec fn at_least(self, other: Level) -> bool {
        self.rank() >= other.rank()
    }

    pub fn is_at_least(&self, other: &Level) -> (r: bool)
        ensures
            r == self.at_least(*other),
    {
        self.to_int() >= other.to_int()
    }

    /// The text that `Display` writes for the level: its name.
    pub fn to_string(&self) -> (r: String)
        ensures
            r@ == self.name(),
    {
        String::from_str(self.as_str())
    }

    /// The level named by an upper-case text: one of the six names, or
    /// `WARNING` for WARN.
    pub open spec fn of_upper_name(u: Seq<char>) -> Option<Level> {
        if u == Level::Trace.name() {
            Some(Level::Trace)
        } else if u == Level::Debug.name() {
            Some(Level::Debug)
        } else if u == Level::Info.name() {
            Some(Level::Info)
        } else if u == Level::Warn.name() || u == seq!['W', 'A', 'R', 'N', 'I', 'N', 'G'] {
            Some(Level::Warn)
        } else if u == Level::Error.name() {
            Some(Level::Error)
        } else if u == Level::Fatal.name() {
            Some(Level::Fatal)
        } else {
            None
        }
    }

    /// The level named by the upper-case text `u`.
    pub fn from_upper_name(u: &[char]) -> (r: Option<Level>)
        ensures
            r == Level::of_upper_name(u@),
    {
        let trace = vec!['T', 'R', 'A', 'C', 'E'];
        let debug = vec!['D', 'E', 'B', 'U', 'G'];
        let info = vec!['I', 'N', 'F', 'O'];
        let warn = vec!['W', 'A', 'R', 'N'];
        let warning = vec!['W', 'A', 'R', 'N', 'I', 'N', 'G'];
        let error = vec!['E', 'R', 'R', 'O', 'R'];
        let fatal = vec!['F', 'A', 'T', 'A', 'L'];
        assert(trace@ =~= Level::Trace.name());
        assert(debug@ =~= Level::Debug.name());
        assert(info@ =~= Level::Info.name());
        assert(warn@ =~= Level::Warn.name());
        assert(warning@ =~= seq!['W', 'A', 'R', 'N', 'I', 'N', 'G']);
        assert(error@ =~= Level::Error.name());
        assert(fatal@ =~= Level::Fatal.name());
        if chars_equal(u, trace.as_slice()) {
            Some(Level::Trace)
        } else if chars_equal(u, debug.as_slice()) {
            Some(Level::Debug)
        } else if chars_equal(u, info.as_slice()) {
            Some(Level::Info)
        } else if chars_equal(u, warn.as_slice()) || chars_equal(u, warning.as_slice()) {
            Some(Level::Warn)
        } else if chars_equal(u, error.as_slice()) {
            Some(Level::Error)
        } else if chars_equal(u, fatal.as_slice()) {
            Some(Level::Fatal)
        } else {
            None
        }
    }

    /// The level that `s.parse::<Level>()` gives: the level named by the
    /// upper-case form of `s`.
    pub open spec fn parsed(s: Seq<char>) -> Option<Level> {
        Level::of_upper_name(uppercase(s))
    }

    /// Parses a level name in any case (`FromStr`): `Ok` exactly where the
    /// upper-case form of `s` names a level, else the message
    /// `Invalid level: <s>`. For ASCII text the upper-case form is the one
    /// with `a`-`z` turned into `A`-`Z`, so a level's name in any mix of
    /// cases parses to it.
    pub fn parse_name(s: &str) -> (r: Result<Level, String>)
        ensures
            match r {
                Ok(l) => Level::parsed(s@) == Some(l),
                Err(e) => Level::parsed(s@) is None && e@ == "Invalid level: "@ + s@,
            },
            is_ascii(s@) ==> Level::parsed(s@) == Level::of_upper_name(ascii_upper(s@)),
            forall|l: Level| #[trigger] l.name() == s@ ==> r == Ok::<Level, String>(l),
            forall|l: Level| #[trigger] ascii_lower(l.name()) == s@ ==> r == Ok::<Level, String>(l),
    {
        proof {
            assert forall|l: Level| #[trigger] l.name() == s@ implies is_ascii(s@) && ascii_upper(s@)
                == s@ && Level::of_upper_name(s@) == Some(l) by {
                lemma_name_cases(l);
                lemma_name_round_trip(l);
            }
            assert forall|l: Level| #[trigger] ascii_lower(l.name()) == s@ implies is_ascii(s@)
                && Level::of_upper_name(ascii_upper(s@)) == Some(l) by {
                lemma_name_cases(l);
                lemma_name_round_trip(l);
            }
        }
        let upper = to_uppercase(s);
        let u = chars_of(upper.as_str());
        match Level::from_upper_name(u.as_slice()) {
            Some(l) => Ok(l),
            None => {
                let mut e = String::from_str("Invalid level: ");
                e.append(s);
                Err(e)
            },
        }
    }
}

impl std::str::FromStr for Level {
    type Err = String;

    fn from_str(s: &str) -> (r: Result<Level, String>)
        ensures
            match r {
                Ok(l) => Level::parsed(s@) == Some(l),
                Err(e) => Level::parsed(s@) is None && e@ == "Invalid level: "@ + s@,
            },
            is_ascii(s@) ==> Level::parsed(s@) == Level::of_upper_name(ascii_upper(s@)),
            forall|l: Level| #[trigger] l.name() == s@ ==> r == Ok::<Level, String>(l),
            forall|l: Level| #[trigger] ascii_lower(l.name()) == s@ ==> r == Ok::<Level, String>(l),
    {
        Level::parse_name(s)
    }
}

/// What `str::to_uppercase` returns for a text: its upper-case equivalent
/// under the Unicode case mapping.
pub uninterp spec fn uppercase(s: Seq<char>) -> Seq<char>;

/// Whether a text is made of ASCII characters only.
pub open spec fn is_ascii(s: Seq<char>) -> bool {
    forall|i: int| 0 <= i < s.len() ==> (#[trigger] s[i] as u32) < 128
}

/// An ASCII character in upper case: `a`-`z` become `A`-`Z`, any other
/// character stays.
pub open spec fn ascii_upper_char(c: char) -> char {
    if 'a' <= c <= 'z' {
        ((c as u32) - 32) as char
    } else {
        c
    }
}

/// An ASCII character in lower case: `A`-`Z` become `a`-`z`, any other
/// character stays.
pub open spec fn ascii_lower_char(c: char) -> char {
    if 'A' <= c <= 'Z' {
        ((c as u32) + 32) as char
    } else {
        c
    }
}

/// A text with its ASCII letters in upper case.
pub open spec fn ascii_upper(s: Seq<char>) -> Seq<char> {
    s.map_values(|c: char| ascii_upper_char(c))
}

/// A text with its ASCII letters in lower case.
pub open spec fn ascii_lower(s: Seq<char>) -> Seq<char> {
    s.map_values(|c: char| ascii_lower_char(c))
}

/// `str::to_uppercase`. The contract names its result, and states it for
/// ASCII text, where the Unicode case mapping turns `a`-`z` into `A`-`Z`
/// and leaves every other character; the rest of the mapping is not
/// restated here.
#[verifier::external_body]
fn to_uppercase(s: &str) -> (r: String)
    ensures
        r@ == uppercase(s@),
        is_ascii(s@) ==> r@ == ascii_upper(s@),
{
    s.to_uppercase()
}

/// The stored number of a level determines it.
pub proof fn lemma_int_round_trip(l: Level)
    ensures
        Level::of_rank(l.rank()) == Some(l),
{
}

/// A level's rank is one of 0 through 5, and every such number is the rank
/// of exactly one level.
pub proof fn lemma_rank_range(l: Level, n: int)
    ensures
        0 <= l.rank() <= 5,
        0 <= n <= 5 <==> Level::of_rank(n) is Some,
        Level::of_rank(n) matches Some(m) ==> m.rank() == n,
{
}

/// The severity table is monotone: a higher severity number never maps to a
/// less severe level.
pub proof fn lemma_severity_monotone(a: int, b: int)
    requires
        1 <= a <= b <= 24,
    ensures
        Level::of_severity(a) is Some,
        Level::of_severity(b) is Some,
        Level::of_severity(b).unwrap().at_least(Level::of_severity(a).unwrap()),
{
}

/// Each level's name parses back to the level from upper case.
pub proof fn lemma_name_round_trip(l: Level)
    ensures
        Level::of_upper_name(l.name()) == Some(l),
{
    assert(Level::Trace.name() != Level::Debug.name());
    assert(Level::Info.name() != Level::Trace.name());
    assert(Level::Info.name() != Level::Debug.name());
    assert(Level::Warn.name() != Level::Trace.name());
    assert(Level::Warn.name() != Level::Debug.name());
    assert(Level::Warn.name() != Level::Info.name());
    assert(Level::Error.name() != Level::Trace.name());
    assert(Level::Error.name() != Level::Debug.name());
    assert(Level::Error.name() != Level::Info.name());
    assert(Level::Error.name() != Level::Warn.name());
    assert(Level::Error.name() != seq!['W', 'A', 'R', 'N', 'I', 'N', 'G']);
    assert(Level::Fatal.name() != Level::Trace.name());
    assert(Level::Fatal.name() != Level::Debug.name());
    assert(Level::Fatal.name() != Level::Info.name());
    assert(Level::Fatal.name() != Level::Warn.name());
    assert(Level::Fatal.name() != Level::Error.name());
    assert(Level::Fatal.name() != seq!['W', 'A', 'R', 'N', 'I', 'N', 'G']);
}

/// A level's name is ASCII, unchanged by upper-casing, and its lower-case
/// form is ASCII and upper-cases back to it.
pub proof fn lemma_name_cases(l: Level)
    ensures
        is_ascii(l.name()),
        ascii_upper(l.name()) == l.name(),
        is_ascii(ascii_lower(l.name())),
        ascii_upper(ascii_lower(l.name())) == l.name(),
{
    let n = l.name();
    assert forall|i: int| 0 <= i < n.len() implies 'A' <= #[trigger] n[i] <= 'Z' by {}
    assert(ascii_upper(n) =~= n);
    let lo = ascii_lower(n);
    assert forall|i: int| 0 <= i < lo.len() implies (#[trigger] lo[i] as u32) < 128 && 'a' <= lo[i] <= 'z' by {
        assert(lo[i] == ascii_lower_char(n[i]));
    }
    assert forall|i: int| 0 <= i < n.len() implies #[trigger] ascii_upper(lo)[i] == n[i] by {
        assert(lo[i] == ascii_lower_char(n[i]));
        assert(ascii_upper(lo)[i] == ascii_upper_char(lo[i]));
    }
    assert(ascii_upper(lo) =~= n);
}

} // verus!
