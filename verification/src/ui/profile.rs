//! The per-player Profile sheet's header.

use vstd::prelude::*;
use crate::ui::panel::SessionState;

verus! {

/// The Profile sheet's header: the current player's name, or "Player".
pub fn header_title(st: &SessionState) -> (s: String)
    ensures
        s@ == (match st.current_user {
            Some(name) => name@,
            None => "Player"@,
        }),
{
    match &st.current_user {
        Some(name) => name.clone(),
        None => String::from_str("Player"),
    }
}

} // verus!
