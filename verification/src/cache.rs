//! Cache-control hints: a per-field/type hint pair combined pairwise with
//! `merge` to compute a response-wide caching directive.

use vstd::prelude::*;

verus! {

/// A cache-control hint: a scope flag and a maximal age in seconds.
///
/// The merge identity is `{ public: true, max_age: 0 }`.
#[derive(Clone, Copy, PartialEq, Eq, Structural, Debug)]
pub struct CacheControl {
    /// Scope is public; the default is `true`.
    pub public: bool,
    /// Cache max age; the default is `0`, meaning "no caching".
    pub max_age: u64,
}

/// What merging two hints yields: the scope stays public only if both are
/// public, and the max age is the smaller of the two, where `0` counts as
/// "unconstrained" rather than as a bound.
pub open spec fn merged(a: CacheControl, b: CacheControl) -> CacheControl {
    CacheControl {
        public: a.public && b.public,
        max_age: if a.max_age == 0 {
            b.max_age
        } else if b.max_age == 0 {
            a.max_age
        } else if a.max_age <= b.max_age {
            a.max_age
        } else {
            b.max_age
        },
    }
}

impl Default for CacheControl {
    /// The merge identity: public scope, no age bound.
    fn default() -> (r: Self)
        ensures
            r.public == true,
            r.max_age == 0,
    {
        CacheControl { public: true, max_age: 0 }
    }
}

impl CacheControl {
    /// Combines another hint into this one.
    pub fn merge(&mut self, other: &CacheControl)
        ensures
            *final(self) == merged(*old(self), *other),
    {
        self.public = self.public && other.public;
        self.max_age = if self.max_age == 0 {
            other.max_age
        } else if other.max_age == 0 {
            self.max_age
        } else if self.max_age <= other.max_age {
            self.max_age
        } else {
            other.max_age
        };
    }
}

/// The cache header a hint renders to: nothing while the age is zero, the
/// age bound otherwise, marked private when the scope is not public.
pub open spec fn header_text(c: CacheControl) -> Option<Seq<char>> {
    if c.max_age > 0 {
        if !c.public {
            Some("max-age="@ + crate::strutil::dec_of(c.max_age as nat) + ", private"@)
        } else {
            Some("max-age="@ + crate::strutil::dec_of(c.max_age as nat))
        }
    } else {
        None
    }
}

impl CacheControl {
    /// Renders the hint as a cache header value.
    pub fn value(&self) -> (r: Option<String>)
        ensures
            match r {
                Some(s) => header_text(*self) == Some(s@),
                None => header_text(*self) is None,
            },
    {
        if self.max_age > 0 {
            let mut s = String::new();
            s.append("max-age=");
            let age = crate::strutil::u64_to_dec(self.max_age);
            s.append(age.as_str());
            if !self.public {
                s.append(", private");
                proof {
                    assert(s@ =~= "max-age="@ + crate::strutil::dec_of(self.max_age as nat)
                        + ", private"@);
                }
            } else {
                proof {
                    assert(s@ =~= "max-age="@ + crate::strutil::dec_of(self.max_age as nat));
                }
            }
            Some(s)
        } else {
            None
        }
    }
}

/// Merging is commutative.
pub proof fn lemma_merge_commutative(a: CacheControl, b: CacheControl)
    ensures
        merged(a, b) == merged(b, a),
{
}

/// Merging with the identity hint `{ public: true, max_age: 0 }` changes
/// nothing, on either side.
pub proof fn lemma_merge_identity(a: CacheControl)
    ensures
        merged(a, CacheControl { public: true, max_age: 0 }) == a,
        merged(CacheControl { public: true, max_age: 0 }, a) == a,
{
}

} // verus!
