//! Keyboard input for the picker.

use vstd::prelude::*;

use crate::text::{char_lowercase, char_to_lowercase, char_to_uppercase, char_uppercase, str_eq};

verus! {

/// A key named `name` is the trigger key `trigger`: its name is the trigger
/// character in lower or upper case.
pub open spec fn is_trigger(name: Option<Seq<char>>, trigger: char) -> bool {
    match name {
        Some(n) => n == char_lowercase(trigger) || n == char_uppercase(trigger),
        None => false,
    }
}

/// The trigger key is recognised in either case and only so: a key is the
/// trigger for `c` exactly when it has a name and that name is `c`'s
/// lowercase or `c`'s uppercase mapping (so typing `c` itself, when it is
/// one of its own case mappings, is recognised).
pub proof fn lemma_trigger_in_either_case(name: Option<Seq<char>>, c: char)
    ensures
        is_trigger(name, c) <==> (name matches Some(n) && (n == char_lowercase(c) || n
            == char_uppercase(c))),
        name == Some(char_lowercase(c)) ==> is_trigger(name, c),
        name == Some(char_uppercase(c)) ==> is_trigger(name, c),
        name is None ==> !is_trigger(name, c),
{
}

/// Whether a key, by its name (a key may have none), is the key that
/// triggered the picker, whichever case it was typed in.
pub fn matches_trigger_key(pressed_name: Option<&str>, trigger_char: char) -> (res: bool)
    ensures
        res == is_trigger(
            match pressed_name {
                Some(n) => Some(n@),
                None => None,
            },
            trigger_char,
        ),
        res <==> (pressed_name matches Some(n) && (n@ == char_lowercase(trigger_char) || n@
            == char_uppercase(trigger_char))),
{
    proof {
        lemma_trigger_in_either_case(
            match pressed_name {
                Some(n) => Some(n@),
                None => None,
            },
            trigger_char,
        );
    }
    let name = match pressed_name {
        Some(name) => name,
        None => {
            return false;
        },
    };
    let lower = char_to_lowercase(trigger_char);
    let upper = char_to_uppercase(trigger_char);
    str_eq(name, lower.as_str()) || str_eq(name, upper.as_str())
}

} // verus!
