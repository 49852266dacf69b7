//! The preferred-language setting: a closed set of two-letter codes.
use vstd::prelude::*;
use crate::MenuError;

verus! {

/// A supported menu language.
#[derive(Clone, Copy, Debug, PartialEq, Eq, Structural)]
pub enum Lang {
    Fi,
    En,
}

impl Lang {
    /// Parses a two-letter language code; any string outside the closed set
    /// {"fi", "en"} is rejected.
    pub fn from_str(s: &str) -> (r: Result<Lang, MenuError>)
        ensures
            r == Ok::<Lang, MenuError>(Lang::Fi) <==> s@ == "fi"@,
            r == Ok::<Lang, MenuError>(Lang::En) <==> s@ == "en"@,
            r is Err <==> s@ != "fi"@ && s@ != "en"@,
            r is Err ==> r == Err::<Lang, MenuError>(MenuError::Validation),
    {
        proof {
            reveal_strlit("fi");
            reveal_strlit("en");
            assert("fi"@[0] == 'f' && "en"@[0] == 'e');
            assert("fi"@ != "en"@);
        }
        if streq(s, "fi") {
            Ok(Lang::Fi)
        } else if streq(s, "en") {
            Ok(Lang::En)
        } else {
            Err(MenuError::Validation)
        }
    }

    /// The two-letter code of the language.
    pub fn as_str(&self) -> (r: &'static str)
        ensures
            *self == Lang::Fi ==> r@ == "fi"@,
            *self == Lang::En ==> r@ == "en"@,
    {
        match self {
            Lang::Fi => "fi",
            Lang::En => "en",
        }
    }
}

/// The language code to use, given the stored configuration value, if any.
///
/// An absent configuration yields the default `"en"`; a stored value outside
/// the closed set {"fi", "en"} is rejected.
pub fn get_lang(stored: &Option<String>) -> (r: Result<&'static str, MenuError>)
    ensures
        stored is None ==> (r matches Ok(code) && code@ == "en"@),
        stored matches Some(s) ==> {
            &&& ((r matches Ok(code) && code@ == "fi"@) <==> s@ == "fi"@)
            &&& ((r matches Ok(code) && code@ == "en"@) <==> s@ == "en"@)
            &&& (r is Err <==> s@ != "fi"@ && s@ != "en"@)
        },
{
    match stored {
        None => Ok("en"),
        Some(s) => {
            let lang = Lang::from_str(s.as_str())?;
            Ok(lang.as_str())
        },
    }
}

/// Compares a string against an expected string character by character.
fn streq(s: &str, t: &str) -> (r: bool)
    ensures
        r <==> s@ == t@,
{
    let sn = s.unicode_len();
    let tn = t.unicode_len();
    if sn != tn {
        proof {
            assert(s@ != t@) by {
                assert(s@.len() != t@.len());
            }
        }
        return false;
    }
    let mut i: usize = 0;
    while i < sn
        invariant
            0 <= i <= sn,
            sn == s@.len(),
            sn == t@.len(),
            forall|k: int| 0 <= k < i ==> s@[k] == t@[k],
        decreases sn - i,
    {
        if s.get_char(i) != t.get_char(i) {
            return false;
        }
        i += 1;
    }
    proof {
        assert(s@ =~= t@);
    }
    true
}

} // verus!
