use vstd::prelude::*;
use vstd::string::*;

use crate::error::GraceError;
use crate::text::{lemma_split_step, split_on};

verus! {

/// A `major.minor.patch` version triple.
#[derive(Clone, Copy, Debug, PartialEq, Eq, Structural)]
pub struct SemanticVersion {
    pub major: u16,
    pub minor: u16,
    pub patch: u16,
}

/// How one version relates to another, judged by field equality alone.
#[derive(Clone, Copy, Debug, PartialEq, Eq, Structural)]
pub enum Compatibility {
    /// The major versions differ.
    Breaking,
    /// All three fields are equal.
    Exact,
    /// Same major and minor, different patch.
    Partial,
    /// Same major, different minor.
    Compatible,
}

/// The classification of `a` against `b`.
pub open spec fn classify(a: SemanticVersion, b: SemanticVersion) -> Compatibility {
    if a.major != b.major {
        Compatibility::Breaking
    } else if a.minor != b.minor {
        Compatibility::Compatible
    } else if a.patch != b.patch {
        Compatibility::Partial
    } else {
        Compatibility::Exact
    }
}

/// Strict lexicographic order on `(major, minor, patch)`.
pub open spec fn newer(a: SemanticVersion, b: SemanticVersion) -> bool {
    a.major > b.major || (a.major == b.major && (a.minor > b.minor || (a.minor == b.minor
        && a.patch > b.patch)))
}

pub open spec fn compare(a: SemanticVersion, b: SemanticVersion) -> core::cmp::Ordering {
    if newer(a, b) {
        core::cmp::Ordering::Greater
    } else if newer(b, a) {
        core::cmp::Ordering::Less
    } else {
        core::cmp::Ordering::Equal
    }
}

pub open spec fn is_digit(c: char) -> bool {
    '0' <= c && c <= '9'
}

pub open spec fn all_digits(s: Seq<char>) -> bool {
    forall|i: int| 0 <= i < s.len() ==> is_digit(#[trigger] s[i])
}

/// The decimal value of a string of digits.
pub open spec fn digits_value(s: Seq<char>) -> nat
    decreases s.len(),
{
    if s.len() == 0 {
        0
    } else {
        digits_value(s.drop_last()) * 10 + (s.last() as nat - '0' as nat) as nat
    }
}

/// A non-empty run of decimal digits whose value fits in a `u16`.
pub open spec fn is_number_field(s: Seq<char>) -> bool {
    s.len() > 0 && all_digits(s) && digits_value(s) <= u16::MAX
}

/// The version that `s` spells, if it is exactly three dot-separated numbers.
pub open spec fn parse_version(s: Seq<char>) -> Option<SemanticVersion> {
    let f = split_on(s, '.');
    if f.len() == 3 && is_number_field(f[0]) && is_number_field(f[1]) && is_number_field(f[2]) {
        Some(
            SemanticVersion {
                major: digits_value(f[0]) as u16,
                minor: digits_value(f[1]) as u16,
                patch: digits_value(f[2]) as u16,
            },
        )
    } else {
        None
    }
}

/// The scanner state after a prefix of the text: whether the prefix can still
/// start a version, and in that case the values read so far.
spec fn scan_ok(f: Seq<Seq<char>>) -> bool {
    &&& f.len() <= 3
    &&& forall|k: int| 0 <= k < f.len() - 1 ==> is_number_field(#[trigger] f[k])
    &&& all_digits(f.last())
    &&& digits_value(f.last()) <= u16::MAX
}

proof fn lemma_digits_push(s: Seq<char>, c: char)
    ensures
        digits_value(s.push(c)) == digits_value(s) * 10 + (c as nat - '0' as nat) as nat,
{
    assert(s.push(c).drop_last() =~= s);
}

proof fn lemma_digits_grow(s: Seq<char>, c: char)
    requires
        is_digit(c),
    ensures
        digits_value(s.push(c)) >= digits_value(s),
{
    lemma_digits_push(s, c);
}

/// Classification looks only at field equality, so it is symmetric.
pub proof fn lemma_classify_symmetric(a: SemanticVersion, b: SemanticVersion)
    ensures
        classify(a, b) == classify(b, a),
{
}

/// Every version is an exact match for itself.
pub proof fn lemma_classify_reflexive(v: SemanticVersion)
    ensures
        classify(v, v) == Compatibility::Exact,
{
}

/// Each classification says what it promises about the fields, and agrees with
/// the order: exact matches are order-equal, breaking ones differ in major and
/// are ordered by it.
pub proof fn lemma_classify_agrees_with_order(a: SemanticVersion, b: SemanticVersion)
    ensures
        classify(a, b) == Compatibility::Breaking ==> a.major != b.major && (newer(a, b)
            <==> a.major > b.major),
        classify(a, b) == Compatibility::Exact ==> a == b && compare(a, b)
            == core::cmp::Ordering::Equal,
        classify(a, b) == Compatibility::Partial ==> a.major == b.major && a.minor == b.minor
            && a.patch != b.patch,
        classify(a, b) == Compatibility::Compatible ==> a.major == b.major && a.minor
            != b.minor,
{
}

impl SemanticVersion {
    pub fn new(major: u16, minor: u16, patch: u16) -> (r: Self)
        ensures
            r.major == major,
            r.minor == minor,
            r.patch == patch,
    {
        SemanticVersion { major, minor, patch }
    }

    /// Reads `major.minor.patch`; anything else is a malformed version.
    pub fn from_string(data: String) -> (r: Result<SemanticVersion, GraceError>)
        ensures
            match parse_version(data@) {
                Some(v) => r == Ok::<SemanticVersion, GraceError>(v),
                None => r == Err::<SemanticVersion, GraceError>(GraceError::MalformedVersion),
            },
    {
        let data = data.as_str();
        let n = data.unicode_len();
        let mut vals: Vec<u16> = Vec::new();
        let mut cur: u32 = 0;
        let mut cur_len: usize = 0;
        let mut ok = true;
        let mut i: usize = 0;
        proof {
            assert(data@.take(0) =~= Seq::<char>::empty());
            assert(split_on(Seq::<char>::empty(), '.').last() =~= Seq::<char>::empty());
        }
        while i < n
            invariant
                n == data@.len(),
                0 <= i <= n,
                cur_len <= i,
                ok ==> scan_ok(split_on(data@.take(i as int), '.')),
                !ok ==> !scan_ok(split_on(data@.take(i as int), '.')),
                ok ==> vals@.len() == split_on(data@.take(i as int), '.').len() - 1,
                ok ==> forall|k: int|
                    0 <= k < vals@.len() ==> vals@[k] == digits_value(
                        #[trigger] split_on(data@.take(i as int), '.')[k],
                    ),
                ok ==> cur == digits_value(split_on(data@.take(i as int), '.').last()),
                ok ==> cur_len == split_on(data@.take(i as int), '.').last().len(),
            decreases n - i,
        {
            let c = data.get_char(i);
            proof {
                lemma_split_step(data@, '.', i as int);
            }
            let ghost f = split_on(data@.take(i as int), '.');
            let ghost g = split_on(data@.take(i + 1), '.');
            if ok {
                if c == '.' {
                    if cur_len == 0 || vals.len() >= 2 {
                        ok = false;
                    } else {
                        vals.push(cur as u16);
                        cur = 0;
                        cur_len = 0;
                    }
                    proof {
                        if ok {
                            assert forall|k: int| 0 <= k < g.len() - 1 implies is_number_field(
                                #[trigger] g[k],
                            ) by {
                                if k < f.len() - 1 {
                                    assert(g[k] == f[k]);
                                }
                            }
                            assert(all_digits(g.last()));
                            assert(g.last() =~= Seq::<char>::empty());
                        } else {
                            if cur_len == 0 {
                                assert(!is_number_field(g[g.len() - 2]));
                            }
                        }
                    }
                } else if '0' <= c && c <= '9' && cur <= 6553 {
                    let d = (c as u32) - ('0' as u32);
                    let next = cur * 10 + d;
                    proof {
                        lemma_digits_push(f.last(), c);
                    }
                    if next > 65535 {
                        ok = false;
                    } else {
                        cur = next;
                        cur_len = cur_len + 1;
                    }
                    proof {
                        assert(g.last() == f.last().push(c));
                        if ok {
                            assert forall|k: int| 0 <= k < g.len() - 1 implies is_number_field(
                                #[trigger] g[k],
                            ) by {
                                assert(g[k] == f[k]);
                            }
                            assert(all_digits(g.last())) by {
                                assert forall|j: int| 0 <= j < g.last().len() implies is_digit(
                                    #[trigger] g.last()[j],
                                ) by {
                                    if j < f.last().len() {
                                        assert(g.last()[j] == f.last()[j]);
                                    }
                                }
                            }
                            assert forall|k: int| 0 <= k < vals@.len() implies vals@[k]
                                == digits_value(#[trigger] g[k]) by {
                                assert(g[k] == f[k]);
                            }
                        }
                    }
                } else {
                    ok = false;
                    proof {
                        assert(g.last() == f.last().push(c));
                        assert(g.last()[g.last().len() - 1] == c);
                        if '0' <= c && c <= '9' {
                            lemma_digits_push(f.last(), c);
                        }
                    }
                }
            } else {
                proof {
                    if c == '.' {
                        assert(g.len() == f.len() + 1);
                        if f.len() <= 3 && (forall|k: int|
                            0 <= k < f.len() - 1 ==> is_number_field(#[trigger] f[k])) {
                            assert(g[f.len() - 1] == f.last());
                            assert(!is_number_field(g[f.len() - 1]));
                        } else if f.len() <= 3 {
                            let k = choose|k: int|
                                0 <= k < f.len() - 1 && !is_number_field(#[trigger] f[k]);
                            assert(g[k] == f[k]);
                        }
                    } else {
                        assert(g.last() == f.last().push(c));
                        if f.len() <= 3 && (forall|k: int|
                            0 <= k < f.len() - 1 ==> is_number_field(#[trigger] f[k])) {
                            if !all_digits(f.last()) {
                                let j = choose|j: int|
                                    0 <= j < f.last().len() && !is_digit(#[trigger] f.last()[j]);
                                assert(g.last()[j] == f.last()[j]);
                            } else if is_digit(c) {
                                lemma_digits_grow(f.last(), c);
                            } else {
                                assert(g.last()[g.last().len() - 1] == c);
                            }
                        } else if f.len() <= 3 {
                            let k = choose|k: int|
                                0 <= k < f.len() - 1 && !is_number_field(#[trigger] f[k]);
                            assert(g[k] == f[k]);
                        }
                    }
                }
            }
            i = i + 1;
        }
        proof {
            assert(data@.take(n as int) =~= data@);
        }
        if ok && vals.len() == 2 && cur_len > 0 {
            Ok(SemanticVersion { major: vals[0], minor: vals[1], patch: cur as u16 })
        } else {
            Err(GraceError::MalformedVersion)
        }
    }

    /// Classifies `self` against `other`.
    pub fn match_to(&self, other: &SemanticVersion) -> (r: Compatibility)
        ensures
            r == classify(*self, *other),
    {
        if self.major == other.major {
            if self.minor == other.minor {
                if self.patch == other.patch {
                    return Compatibility::Exact;
                }
                return Compatibility::Partial;
            }
            return Compatibility::Compatible;
        }
        Compatibility::Breaking
    }

    /// Whether `self` comes strictly after `other`.
    pub fn is_newer_than(&self, other: &SemanticVersion) -> (r: bool)
        ensures
            r == newer(*self, *other),
    {
        if self.major != other.major {
            self.major > other.major
        } else if self.minor != other.minor {
            self.minor > other.minor
        } else {
            self.patch > other.patch
        }
    }
}

impl PartialOrd for SemanticVersion {
    fn partial_cmp(&self, other: &Self) -> (r: Option<core::cmp::Ordering>)
        ensures
            r == Some(compare(*self, *other)),
    {
        if self.is_newer_than(other) {
            Some(core::cmp::Ordering::Greater)
        } else if other.is_newer_than(self) {
            Some(core::cmp::Ordering::Less)
        } else {
            Some(core::cmp::Ordering::Equal)
        }
    }
}

impl vstd::std_specs::cmp::PartialOrdSpecImpl for SemanticVersion {
    open spec fn obeys_partial_cmp_spec() -> bool {
        true
    }

    open spec fn partial_cmp_spec(&self, other: &SemanticVersion) -> Option<core::cmp::Ordering> {
        Some(compare(*self, *other))
    }
}

} // verus!
