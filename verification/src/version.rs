//! Semantic versions: how they are written, read and bumped.

use crate::metadata::Version;
use vstd::prelude::*;
use vstd::string::StringExecFns;

verus! {

/// What a minor bump does to the patch number.
#[derive(Debug, Clone, Copy, PartialEq, Eq, Structural)]
pub enum BumpStrategy {
    /// The patch number becomes zero.
    ResetPatch,
    /// The patch number stays as it is.
    KeepPatch,
}

/// A version as plain values: major, minor, patch, pre-release, build.
pub type VersionParts = (u64, u64, u64, Seq<char>, Seq<char>);

impl View for Version {
    type V = VersionParts;

    open spec fn view(&self) -> VersionParts {
        (self.major, self.minor, self.patch, self.pre@, self.build@)
    }
}

/// The character for one decimal digit.
pub open spec fn digit_char(d: nat) -> char {
    if d == 0 {
        '0'
    } else if d == 1 {
        '1'
    } else if d == 2 {
        '2'
    } else if d == 3 {
        '3'
    } else if d == 4 {
        '4'
    } else if d == 5 {
        '5'
    } else if d == 6 {
        '6'
    } else if d == 7 {
        '7'
    } else if d == 8 {
        '8'
    } else {
        '9'
    }
}

/// A number in decimal, without leading zeros.
pub open spec fn decimal(n: nat) -> Seq<char>
    decreases n,
{
    if n < 10 {
        seq![digit_char(n)]
    } else {
        decimal(n / 10).push(digit_char(n % 10))
    }
}

/// `text` behind `mark`, or nothing where `text` is empty.
pub open spec fn marked(mark: char, text: Seq<char>) -> Seq<char> {
    if text.len() == 0 {
        text
    } else {
        seq![mark] + text
    }
}

/// A version as it is written in a manifest.
pub open spec fn version_text(v: VersionParts) -> Seq<char> {
    decimal(v.0 as nat) + seq!['.'] + decimal(v.1 as nat) + seq!['.'] + decimal(v.2 as nat)
        + marked('-', v.3) + marked('+', v.4)
}

/// The requirement that admits `version` and what is compatible with it.
pub open spec fn caret_text(version: Seq<char>) -> Seq<char> {
    seq!['^'] + version
}

/// The version after a minor bump, where the minor number can grow.
pub open spec fn bumped(v: VersionParts, strategy: BumpStrategy) -> Option<VersionParts> {
    if v.1 == u64::MAX {
        None
    } else {
        Some(
            (
                v.0,
                (v.1 + 1) as u64,
                match strategy {
                    BumpStrategy::ResetPatch => 0,
                    BumpStrategy::KeepPatch => v.2,
                },
                v.3,
                v.4,
            ),
        )
    }
}

/// What parsing a text as a semantic version gives: the parts of the
/// version, or nothing where the text is no version.
pub uninterp spec fn semver_parse(text: Seq<char>) -> Option<VersionParts>;

/// Parses a semantic version with `semver::Version::parse`. The result is
/// the version that the parser reads from `text`, with the pre-release and
/// build parts as text, or `None` where the parser rejects `text`.
#[verifier::external_body]
pub(crate) fn parse_version(text: &str) -> (r: Option<Version>)
    ensures
        match r {
            Some(v) => semver_parse(text@) == Some(v@),
            None => semver_parse(text@) is None,
        },
{
    match cargo_metadata::semver::Version::parse(text) {
        Ok(v) => Some(
            Version {
                major: v.major,
                minor: v.minor,
                patch: v.patch,
                pre: v.pre.as_str().to_string(),
                build: v.build.as_str().to_string(),
            },
        ),
        Err(_) => None,
    }
}

fn digit_text(d: u64) -> (s: &'static str)
    requires
        d < 10,
    ensures
        s@ == seq![digit_char(d as nat)],
{
    proof {
        reveal_strlit("0");
        reveal_strlit("1");
        reveal_strlit("2");
        reveal_strlit("3");
        reveal_strlit("4");
        reveal_strlit("5");
        reveal_strlit("6");
        reveal_strlit("7");
        reveal_strlit("8");
        reveal_strlit("9");
    }
    let s = if d == 0 {
        "0"
    } else if d == 1 {
        "1"
    } else if d == 2 {
        "2"
    } else if d == 3 {
        "3"
    } else if d == 4 {
        "4"
    } else if d == 5 {
        "5"
    } else if d == 6 {
        "6"
    } else if d == 7 {
        "7"
    } else if d == 8 {
        "8"
    } else {
        "9"
    };
    assert(s@ =~= seq![digit_char(d as nat)]);
    s
}

/// Writes a number in decimal.
pub fn decimal_text(n: u64) -> (s: String)
    ensures
        s@ == decimal(n as nat),
    decreases n,
{
    if n < 10 {
        String::from_str(digit_text(n))
    } else {
        let mut s = decimal_text(n / 10);
        s.append(digit_text(n % 10));
        s
    }
}

fn append_marked(out: &mut String, mark: &str, mark_char: Ghost<char>, text: &String)
    requires
        mark@ == seq![mark_char@],
    ensures
        final(out)@ == old(out)@ + marked(mark_char@, text@),
{
    if text.as_str().is_empty() {
        assert(out@ + text@ =~= out@);
    } else {
        let ghost start = out@;
        out.append(mark);
        out.append(text.as_str());
        assert(out@ =~= start + (seq![mark_char@] + text@));
    }
}

impl Version {
    /// The version as it is written in a manifest.
    pub fn to_text(&self) -> (s: String)
        ensures
            s@ == version_text(self@),
    {
        proof {
            reveal_strlit(".");
            reveal_strlit("-");
            reveal_strlit("+");
            assert("."@ =~= seq!['.']);
            assert("-"@ =~= seq!['-']);
            assert("+"@ =~= seq!['+']);
        }
        let mut s = decimal_text(self.major);
        s.append(".");
        s.append(decimal_text(self.minor).as_str());
        s.append(".");
        s.append(decimal_text(self.patch).as_str());
        append_marked(&mut s, "-", Ghost('-'), &self.pre);
        append_marked(&mut s, "+", Ghost('+'), &self.build);
        s
    }

    /// A second value of the same version.
    pub fn duplicate(&self) -> (v: Version)
        ensures
            v@ == self@,
    {
        Version {
            major: self.major,
            minor: self.minor,
            patch: self.patch,
            pre: self.pre.clone(),
            build: self.build.clone(),
        }
    }

    /// The version after a minor bump, or `None` where the minor number
    /// cannot grow.
    pub fn bump_minor(&self, strategy: BumpStrategy) -> (r: Option<Version>)
        ensures
            match r {
                Some(v) => bumped(self@, strategy) == Some(v@),
                None => bumped(self@, strategy) is None,
            },
    {
        if self.minor == u64::MAX {
            return None;
        }
        let patch: u64 = match strategy {
            BumpStrategy::ResetPatch => 0,
            BumpStrategy::KeepPatch => self.patch,
        };
        Some(
            Version {
                major: self.major,
                minor: self.minor + 1,
                patch,
                pre: self.pre.clone(),
                build: self.build.clone(),
            },
        )
    }
}

/// The caret requirement on a version given as text.
pub fn caret_requirement(version: &str) -> (s: String)
    ensures
        s@ == caret_text(version@),
{
    proof {
        reveal_strlit("^");
        assert("^"@ =~= seq!['^']);
    }
    let mut s = String::from_str("^");
    s.append(version);
    s
}

} // verus!
