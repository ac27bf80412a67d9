//! `yuki-tool languages`: which languages are listed, and how.

use vstd::prelude::*;

use crate::text::{chars_of, push_str, str_eq, string_of};

verus! {

/// A language can be used when its state is empty or `enable`.
pub open spec fn enabled_spec(status: Seq<char>) -> bool {
    status.len() == 0 || status == "enable"@
}

/// What follows a language in the list: nothing for a usable one, its state
/// in brackets for another, which is listed only with `include_disabled`
/// (`None`: not listed).
pub fn language_suffix(status: &str, include_disabled: bool) -> (r: Option<String>)
    ensures
        enabled_spec(status@) ==> (r matches Some(s) && s@.len() == 0),
        !enabled_spec(status@) && include_disabled ==> (r matches Some(s) && s@ == " ["@ + status@ + "]"@),
        !enabled_spec(status@) && !include_disabled ==> r is None,
{
    if status.is_empty() || str_eq(status, "enable") {
        return Some(String::new());
    }
    if !include_disabled {
        return None;
    }
    let mut acc = chars_of(" [");
    push_str(&mut acc, status);
    push_str(&mut acc, "]");
    Some(string_of(&acc))
}

} // verus!
