//! Slug derivation: a directory name becomes an identifier segment by
//! lower-casing it and replacing every space with a hyphen.

use vstd::prelude::*;

verus! {

/// The lower-cased form of a character sequence, as `str::to_lowercase`
/// computes it. The result depends on the characters alone.
pub uninterp spec fn lowercase_of(s: Seq<char>) -> Seq<char>;

/// The slug of a directory name: the lower-cased name with every space
/// turned into a hyphen.
pub open spec fn slug_of(name: Seq<char>) -> Seq<char> {
    lowercase_of(name).map_values(|c: char| if c == ' ' { '-' } else { c })
}

/// Relies on `str::to_lowercase`: the result is a function of the input
/// characters alone.
#[verifier::external_body]
fn lowercase(s: &str) -> (r: String)
    ensures
        r@ == lowercase_of(s@),
{
    s.to_lowercase()
}

/// Relies on `str::replace` with a single-character pattern and a
/// single-character replacement: every occurrence of `from` becomes `to`,
/// every other character is kept.
#[verifier::external_body]
fn replace_char(s: &str, from: char, to: char) -> (r: String)
    ensures
        r@ == s@.map_values(|c: char| if c == from { to } else { c }),
{
    s.replace(from, to.to_string().as_str())
}

/// Derives the slug of a directory name.
pub fn slugify(name: &str) -> (r: String)
    ensures
        r@ == slug_of(name@),
{
    let lowered = lowercase(name);
    let slug = replace_char(lowered.as_str(), ' ', '-');
    proof {
        assert(slug@ =~= slug_of(name@));
    }
    slug
}

} // verus!
