//! The interactive menu: what each answer selects, and what counts as an
//! answer to a prompt.

use vstd::prelude::*;

use crate::text::{string_from_chars, trim, trim_chars};

verus! {

/// What the user asked the program to do.
pub enum Action {
    /// `GET` the given path and print the result.
    Get(&'static str),
    /// Place a limit buy of all available USD.
    PlaceOrder,
    /// Place a limit sell of all available LTC.
    PlaceSell,
    /// Cancel every active order.
    CancelAllOrders,
    /// Run the buy/sell cycle at the given limit prices.
    Bot { buy_price: String, sell_price: String },
}

/// The action that a menu answer selects (the answer trimmed: `1` to `4`),
/// or `None` for an answer that is no choice, after which the menu is shown
/// again.
pub fn parse_choice(input: &str) -> (res: Option<Action>)
    ensures
        trim(input@) == "1"@ ==> (res matches Some(Action::Get(p)) && p@ == "/balances"@),
        trim(input@) == "2"@ ==> (res matches Some(Action::Get(p)) && p@
            == "/configuration/pairs"@),
        trim(input@) == "3"@ ==> (res matches Some(Action::PlaceOrder)),
        trim(input@) == "4"@ ==> (res matches Some(Action::PlaceSell)),
        trim(input@) != "1"@ && trim(input@) != "2"@ && trim(input@) != "3"@ && trim(input@)
            != "4"@ ==> res is None,
{
    let t = trim_chars(input);
    let s = string_from_chars(&t);
    let answer = s.as_str();
    proof {
        reveal_strlit("1");
        reveal_strlit("2");
        reveal_strlit("3");
        reveal_strlit("4");
        assert("1"@[0] != "2"@[0] && "1"@[0] != "3"@[0] && "1"@[0] != "4"@[0]);
        assert("2"@[0] != "3"@[0] && "2"@[0] != "4"@[0] && "3"@[0] != "4"@[0]);
    }
    if crate::text::str_eq(answer, "1") {
        Some(Action::Get("/balances"))
    } else if crate::text::str_eq(answer, "2") {
        Some(Action::Get("/configuration/pairs"))
    } else if crate::text::str_eq(answer, "3") {
        Some(Action::PlaceOrder)
    } else if crate::text::str_eq(answer, "4") {
        Some(Action::PlaceSell)
    } else {
        None
    }
}

/// The value entered at a prompt: the answer trimmed, or `None` where that
/// is empty, after which the prompt is shown again.
pub fn prompt_value(input: &str) -> (res: Option<String>)
    ensures
        res is None <==> trim(input@).len() == 0,
        res matches Some(v) ==> v@ == trim(input@),
{
    let t = trim_chars(input);
    if t.len() == 0 {
        None
    } else {
        Some(string_from_chars(&t))
    }
}

/// The line shown before the buy price is asked for.
pub fn buy_price_banner(available: &str) -> (res: String)
    ensures
        res@ == "Spending "@ + available@ + " USD"@,
{
    let mut s = "Spending ".to_owned();
    s.append(available);
    s.append(" USD");
    s
}

/// The line shown before the sell price is asked for.
pub fn sell_price_banner(available: &str) -> (res: String)
    ensures
        res@ == "Selling "@ + available@ + " LTC"@,
{
    let mut s = "Selling ".to_owned();
    s.append(available);
    s.append(" LTC");
    s
}

} // verus!
