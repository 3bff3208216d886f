//! Versions of partial specificity: `major`, optionally `.minor`,
//! optionally `.patch`. Parsing, rendering, ordering and prefix matching,
//! with the round trip `parse(render(v)) == v` proved.

use vstd::prelude::*;

use crate::errors::YenError;
use crate::strutil::{
    dec_str, dec_val, digit_char, is_digit, is_prefix, lemma_dec_str_digits,
    lemma_dec_val_of_dec_str, parse_u32, push_char, spec_split, split_char, starts_with_str,
    u32_to_string,
};

verus! {

/// A possibly partial version: the major component is always present,
/// minor and patch may be absent.
#[derive(Clone, Copy, Debug)]
pub struct Version {
    pub major: u32,
    pub minor: Option<u32>,
    pub patch: Option<u32>,
}

/// A digit sequence that denotes one version component: nonempty, all
/// digits, value within `u32`.
pub open spec fn valid_component(s: Seq<char>) -> bool {
    &&& s.len() > 0
    &&& forall|i: int| 0 <= i < s.len() ==> is_digit(#[trigger] s[i])
    &&& dec_val(s) <= u32::MAX
}

impl Version {
    /// A patch component is only meaningful under a minor component.
    pub open spec fn wf(self) -> bool {
        self.patch is Some ==> self.minor is Some
    }

    /// The rendering of this version: only the supplied components are
    /// printed.
    pub open spec fn spec_str(self) -> Seq<char> {
        if self.minor is Some && self.patch is Some {
            dec_str(self.major as nat) + seq!['.'] + dec_str(self.minor->0 as nat) + seq!['.']
                + dec_str(self.patch->0 as nat)
        } else if self.minor is Some {
            dec_str(self.major as nat) + seq!['.'] + dec_str(self.minor->0 as nat)
        } else {
            dec_str(self.major as nat)
        }
    }

    /// What parsing a string yields: split on `.`, one to three numeric
    /// components, else nothing.
    pub open spec fn spec_parse(s: Seq<char>) -> Option<Version> {
        let parts = spec_split(s, '.');
        if 1 <= parts.len() <= 3 && (forall|i: int|
            0 <= i < parts.len() ==> valid_component(#[trigger] parts[i])) {
            Some(
                Version {
                    major: dec_val(parts[0]) as u32,
                    minor: if parts.len() >= 2 {
                        Some(dec_val(parts[1]) as u32)
                    } else {
                        None
                    },
                    patch: if parts.len() == 3 {
                        Some(dec_val(parts[2]) as u32)
                    } else {
                        None
                    },
                },
            )
        } else {
            None
        }
    }

    /// Parses a dotted version string of one to three numeric components.
    pub fn parse(s: &str) -> (r: Result<Version, YenError>)
        ensures
            match r {
                Ok(v) => Self::spec_parse(s@) == Some(v) && v.wf(),
                Err(e) => Self::spec_parse(s@) is None && e is Parse,
            },
    {
        let parts = split_char(s, '.');
        proof {
            assert(forall|i: int|
                0 <= i < parts@.len() ==> parts.deep_view()[i] == #[trigger] parts@[i]@);
        }
        if parts.len() < 1 || parts.len() > 3 {
            return Err(YenError::Parse);
        }
        let major = match parse_u32(parts[0].as_str()) {
            Some(m) => m,
            None => {
                return Err(YenError::Parse);
            },
        };
        let minor = if parts.len() >= 2 {
            match parse_u32(parts[1].as_str()) {
                Some(m) => Some(m),
                None => {
                    return Err(YenError::Parse);
                },
            }
        } else {
            None
        };
        let patch = if parts.len() == 3 {
            match parse_u32(parts[2].as_str()) {
                Some(m) => Some(m),
                None => {
                    return Err(YenError::Parse);
                },
            }
        } else {
            None
        };
        Ok(Version { major, minor, patch })
    }

    /// Renders the version, printing only the supplied components.
    pub fn to_string(&self) -> (r: String)
        ensures
            r@ == self.spec_str(),
    {
        let mut s = u32_to_string(self.major);
        if let Some(m) = self.minor {
            push_char(&mut s, '.');
            let ms = u32_to_string(m);
            s.append(ms.as_str());
            if let Some(p) = self.patch {
                push_char(&mut s, '.');
                let ps = u32_to_string(p);
                s.append(ps.as_str());
                proof {
                    assert(s@ =~= self.spec_str());
                }
            } else {
                proof {
                    assert(s@ =~= self.spec_str());
                }
            }
        }
        s
    }

    /// Lexicographic order over (major, minor, patch), an absent component
    /// sorting before any present one.
    pub open spec fn spec_lt(self, other: Version) -> bool {
        ||| self.major < other.major
        ||| (self.major == other.major && (opt_lt(self.minor, other.minor) || (self.minor
            == other.minor && opt_lt(self.patch, other.patch))))
    }

    pub open spec fn spec_le(self, other: Version) -> bool {
        self.spec_lt(other) || self == other
    }

    /// Strict comparison in the version order.
    pub fn lt(&self, other: &Version) -> (r: bool)
        ensures
            r == self.spec_lt(*other),
    {
        if self.major < other.major {
            true
        } else if self.major == other.major {
            if opt_lt_exec(&self.minor, &other.minor) {
                true
            } else if opt_eq_exec(&self.minor, &other.minor) {
                opt_lt_exec(&self.patch, &other.patch)
            } else {
                false
            }
        } else {
            false
        }
    }

    /// Does this version's rendering start with the requested one's?  This
    /// is the catalog-lookup notion of compatibility: requesting `3.12`
    /// matches `3.12.4`.
    pub fn matches_prefix(&self, requested: &Version) -> (r: bool)
        ensures
            r == is_prefix(requested.spec_str(), self.spec_str()),
    {
        let own = self.to_string();
        let req = requested.to_string();
        starts_with_str(own.as_str(), req.as_str())
    }
}

impl Version {
    /// Component-wise equality.
    pub fn eq(&self, other: &Version) -> (r: bool)
        ensures
            r == (*self == *other),
    {
        let r = self.major == other.major && opt_eq_exec(&self.minor, &other.minor) && opt_eq_exec(
            &self.patch,
            &other.patch,
        );
        proof {
            if r {
                assert(*self == *other);
            }
        }
        r
    }
}

/// The version order is total: any two versions are comparable.
pub proof fn lemma_version_trichotomy(a: Version, b: Version)
    ensures
        a.spec_lt(b) || b.spec_lt(a) || a == b,
{
    if !a.spec_lt(b) && !b.spec_lt(a) {
        assert(a.major == b.major);
        assert(a.minor == b.minor);
        assert(a.patch == b.patch);
        assert(a == b);
    }
}

/// The version order is transitive.
pub proof fn lemma_version_lt_trans(a: Version, b: Version, c: Version)
    requires
        a.spec_lt(b),
        b.spec_lt(c),
    ensures
        a.spec_lt(c),
{
}

/// Order on optional components: absent sorts before present.
pub open spec fn opt_lt(a: Option<u32>, b: Option<u32>) -> bool {
    match (a, b) {
        (Option::None, Option::Some(_)) => true,
        (Option::Some(x), Option::Some(y)) => x < y,
        _ => false,
    }
}

fn opt_lt_exec(a: &Option<u32>, b: &Option<u32>) -> (r: bool)
    ensures
        r == opt_lt(*a, *b),
{
    match (a, b) {
        (Option::None, Option::Some(_)) => true,
        (Option::Some(x), Option::Some(y)) => x < y,
        _ => false,
    }
}

fn opt_eq_exec(a: &Option<u32>, b: &Option<u32>) -> (r: bool)
    ensures
        r == (*a == *b),
{
    match (a, b) {
        (Option::None, Option::None) => true,
        (Option::Some(x), Option::Some(y)) => x == y,
        _ => false,
    }
}

/// A separator-free sequence splits to itself alone.
pub proof fn lemma_split_single(a: Seq<char>, sep: char)
    requires
        forall|i: int| 0 <= i < a.len() ==> a[i] != sep,
    ensures
        spec_split(a, sep) =~~= seq![a],
    decreases a.len(),
{
    if a.len() > 0 {
        lemma_split_single(a.drop_first(), sep);
        assert(seq![a.first()] + a.drop_first() =~= a);
    }
}

/// Splitting at a separator that follows a separator-free head: the head
/// becomes the first part.
pub proof fn lemma_split_concat(a: Seq<char>, b: Seq<char>, sep: char)
    requires
        forall|i: int| 0 <= i < a.len() ==> a[i] != sep,
    ensures
        spec_split(a + seq![sep] + b, sep) =~~= seq![a] + spec_split(b, sep),
    decreases a.len(),
{
    let s = a + seq![sep] + b;
    if a.len() == 0 {
        assert(s.first() == sep);
        assert(s.drop_first() =~= b);
    } else {
        lemma_split_concat(a.drop_first(), b, sep);
        assert(s.first() == a.first());
        assert(s.first() != sep);
        assert(s.drop_first() =~= a.drop_first() + seq![sep] + b);
        crate::strutil::lemma_split_len(b, sep);
        assert(seq![s.first()] + (seq![a.drop_first()] + spec_split(b, sep)).first() =~= a);
    }
}

/// The round trip: parsing a rendered well-formed version yields the same
/// version. Holds for every version of one to three supplied components.
pub proof fn lemma_parse_round_trip(v: Version)
    requires
        v.wf(),
    ensures
        Version::spec_parse(v.spec_str()) == Some(v),
{
    let maj = dec_str(v.major as nat);
    lemma_dec_str_digits(v.major as nat);
    lemma_dec_val_of_dec_str(v.major as nat);
    if v.minor is Some && v.patch is Some {
        let min = dec_str(v.minor->0 as nat);
        let pat = dec_str(v.patch->0 as nat);
        lemma_dec_str_digits(v.minor->0 as nat);
        lemma_dec_val_of_dec_str(v.minor->0 as nat);
        lemma_dec_str_digits(v.patch->0 as nat);
        lemma_dec_val_of_dec_str(v.patch->0 as nat);
        assert(v.spec_str() =~= maj + seq!['.'] + (min + seq!['.'] + pat));
        lemma_split_concat(maj, min + seq!['.'] + pat, '.');
        lemma_split_concat(min, pat, '.');
        lemma_split_single(pat, '.');
        let parts = spec_split(v.spec_str(), '.');
        assert(parts =~~= seq![maj, min, pat]);
    } else if v.minor is Some {
        let min = dec_str(v.minor->0 as nat);
        lemma_dec_str_digits(v.minor->0 as nat);
        lemma_dec_val_of_dec_str(v.minor->0 as nat);
        assert(v.spec_str() =~= maj + seq!['.'] + min);
        lemma_split_concat(maj, min, '.');
        lemma_split_single(min, '.');
        let parts = spec_split(v.spec_str(), '.');
        assert(parts =~~= seq![maj, min]);
    } else {
        lemma_split_single(maj, '.');
        assert(v.spec_str() == maj);
    }
}

} // verus!
