//! Validation of caller-supplied input.
//!
//! Prompting itself is the callers' business; what the engine owns is
//! the rule for what may come in: no reserved token as a resource name,
//! and a usable master password. Centralizing the checks here keeps the
//! mutating entry points from each re-inventing them.

use crate::errors::VaultError;
use crate::lines::eq_str;
use crate::lines::trim;
use crate::lines::trim_spec;
use crate::resource::Key;
use crate::resource::is_reserved_spec;
use vstd::prelude::*;

verus! {

/// Whether `input` equals one of the two reserved tokens, which no
/// resource name may take.
pub fn is_reserved(input: &str) -> (r: bool)
    ensures
        r == is_reserved_spec(input@),
{
    eq_str(input, "nonce") || eq_str(input, "resource")
}

/// A usable master password: not blank once trimmed, and without
/// embedded spaces.
pub open spec fn valid_password(s: Seq<char>) -> bool {
    trim_spec(s).len() > 0 && (forall|i: int| 0 <= i < s.len() ==> s[i] != ' ')
}

/// Checks a master password as the prompt layer hands it over: blank or
/// space-holding passwords are refused before any key is derived from
/// them.
pub fn validate_master_password(input: &str) -> (r: Result<(), VaultError>)
    ensures
        r is Ok <==> valid_password(input@),
        r is Err ==> r == Err::<(), VaultError>(VaultError::InvalidInput),
{
    let t = trim(input);
    if t.as_str().unicode_len() == 0 {
        return Err(VaultError::InvalidInput);
    }
    let n = input.unicode_len();
    let mut i: usize = 0;
    while i < n
        invariant
            0 <= i <= n,
            n == input@.len(),
            forall|j: int| 0 <= j < i ==> input@[j] != ' ',
        decreases n - i,
    {
        if input.get_char(i) == ' ' {
            return Err(VaultError::InvalidInput);
        }
        i = i + 1;
    }
    proof {
        assert(trim_spec(input@).len() > 0);
    }
    Ok(())
}

/// Maps the one-letter answer of the update prompt to the field it
/// names.
pub fn parse_update_key(input: &str) -> (r: Option<Key>)
    ensures
        input@ == "n"@ ==> r == Some(Key::Name),
        input@ == "u"@ ==> r == Some(Key::User),
        input@ == "p"@ ==> r == Some(Key::Password),
        input@ != "n"@ && input@ != "u"@ && input@ != "p"@ ==> r is None,
{
    proof {
        reveal_strlit("n");
        reveal_strlit("u");
        reveal_strlit("p");
        assert("n"@[0] == 'n' && "u"@[0] == 'u' && "p"@[0] == 'p');
        assert("n"@ != "u"@ && "n"@ != "p"@ && "u"@ != "p"@);
    }
    if eq_str(input, "n") {
        Some(Key::Name)
    } else if eq_str(input, "u") {
        Some(Key::User)
    } else if eq_str(input, "p") {
        Some(Key::Password)
    } else {
        None
    }
}

} // verus!
