//! The languages that solutions can be written in.

use vstd::prelude::*;
use crate::error::Error;
use crate::text::same_text;

verus! {

/// A language of the platform and the version that new submissions run on.
#[derive(Debug, PartialEq, Eq)]
pub struct Lang {
    pub name: String,
    pub latest_version: String,
}

/// Whether `langs[i]` is the first language named `name`.
pub open spec fn first_named(langs: Seq<Lang>, i: int, name: Seq<char>) -> bool {
    &&& 0 <= i < langs.len()
    &&& langs[i].name@ == name
    &&& forall|k: int| 0 <= k < i ==> (#[trigger] langs[k]).name@ != name
}

/// No language of `langs` is named `name`.
pub open spec fn none_named(langs: Seq<Lang>, name: Seq<char>) -> bool {
    forall|k: int| 0 <= k < langs.len() ==> (#[trigger] langs[k]).name@ != name
}

/// The first language of `langs` named `name`. Fails with `NotFound` where
/// there is none.
pub fn find_language<'a>(langs: &'a Vec<Lang>, name: &str) -> (found: Result<&'a Lang, Error>)
    ensures
        match found {
            Ok(lang) => exists|i: int|
                #[trigger] first_named(langs@, i, name@) && *lang == langs@[i],
            Err(e) => e == Error::NotFound && none_named(langs@, name@),
        },
{
    let mut i: usize = 0;
    while i < langs.len()
        invariant
            i <= langs.len(),
            forall|k: int| 0 <= k < i ==> (#[trigger] langs@[k]).name@ != name@,
        decreases langs.len() - i,
    {
        if same_text(langs[i].name.as_str(), name) {
            assert(first_named(langs@, i as int, name@));
            return Ok(&langs[i]);
        }
        i += 1;
    }
    Err(Error::NotFound)
}

} // verus!
