//! The request side of the exchange's REST API: the path that is signed, the
//! signed request that goes out, the order that is placed, and what is read
//! from the JSON bodies that come back.

use vstd::prelude::*;

use crate::auth::{request_signature, sign_request, PrivateKey};
use crate::json::Json;
use crate::text::{chars_of, decimal, decimal_string, str_eq, string_from_chars, trim_end_slashes};

verus! {

/// Whether `"://"` starts at index `i` of `s`.
pub open spec fn is_scheme_sep_at(s: Seq<char>, i: int) -> bool {
    &&& 0 <= i
    &&& i + 3 <= s.len()
    &&& s[i] == ':'
    &&& s[i + 1] == '/'
    &&& s[i + 2] == '/'
}

/// `i` is where the first `"://"` of `s` starts.
pub open spec fn is_first_scheme_sep(s: Seq<char>, i: int) -> bool {
    &&& is_scheme_sep_at(s, i)
    &&& forall|j: int| 0 <= j < i ==> !is_scheme_sep_at(s, j)
}

/// `k` is the index of the first `'/'` of `s`.
pub open spec fn is_first_slash(s: Seq<char>, k: int) -> bool {
    &&& 0 <= k < s.len()
    &&& s[k] == '/'
    &&& forall|j: int| 0 <= j < k ==> s[j] != '/'
}

/// The path part of a base URL: with trailing slashes removed, the text after
/// the first `"://"`, from its first `'/'` on; empty where either is missing.
pub open spec fn url_path_of(base_url: Seq<char>) -> Seq<char> {
    let t = trim_end_slashes(base_url);
    if exists|i: int| is_first_scheme_sep(t, i) {
        let i = choose|i: int| is_first_scheme_sep(t, i);
        let rest = t.skip(i + 3);
        if exists|k: int| is_first_slash(rest, k) {
            let k = choose|k: int| is_first_slash(rest, k);
            rest.skip(k)
        } else {
            Seq::empty()
        }
    } else {
        Seq::empty()
    }
}

proof fn lemma_trim_end_slashes_take(s: Seq<char>, i: int)
    requires
        0 <= i <= s.len(),
        forall|j: int| i <= j < s.len() ==> #[trigger] s[j] == '/',
    ensures
        trim_end_slashes(s) == trim_end_slashes(s.take(i)),
    decreases s.len() - i,
{
    if i < s.len() {
        assert(s.take(s.len() - 1) == s.drop_last());
        lemma_trim_end_slashes_take(s.drop_last(), i);
        assert(s.drop_last().take(i) == s.take(i));
    } else {
        assert(s.take(i) == s);
    }
}

/// The length of `cs` without its trailing slashes.
fn slash_trimmed_len(cs: &Vec<char>) -> (hi: usize)
    ensures
        hi <= cs@.len(),
        trim_end_slashes(cs@) == cs@.take(hi as int),
{
    let mut hi: usize = cs.len();
    while hi > 0 && cs[hi - 1] == '/'
        invariant
            hi <= cs@.len(),
            forall|j: int| hi <= j < cs@.len() ==> #[trigger] cs@[j] == '/',
        decreases hi,
    {
        hi = hi - 1;
    }
    proof {
        lemma_trim_end_slashes_take(cs@, hi as int);
        assert(trim_end_slashes(cs@.take(hi as int)) == cs@.take(hi as int));
    }
    hi
}

/// The characters of `cs` from `lo` up to `hi`.
fn sub_chars(cs: &Vec<char>, lo: usize, hi: usize) -> (res: Vec<char>)
    requires
        lo <= hi <= cs@.len(),
    ensures
        res@ == cs@.subrange(lo as int, hi as int),
{
    let mut res: Vec<char> = Vec::new();
    for i in lo..hi
        invariant
            lo <= hi <= cs@.len(),
            res@ == cs@.subrange(lo as int, i as int),
    {
        res.push(cs[i]);
        assert(cs@.subrange(lo as int, i + 1) == cs@.subrange(lo as int, i as int).push(
            cs@[i as int],
        ));
    }
    res
}

/// The path of `base_url` that is prefixed to each signed path: for
/// `https://host/api/1.0/` it is `/api/1.0`, and it is empty where the URL has
/// no path or no `"://"`.
pub fn url_path(base_url: &str) -> (res: String)
    ensures
        res@ == url_path_of(base_url@),
{
    let cs = chars_of(base_url);
    let hi = slash_trimmed_len(&cs);
    let ghost t = cs@.take(hi as int);
    let mut i: usize = 0;
    while hi >= 3 && i <= hi - 3 && !(cs[i] == ':' && cs[i + 1] == '/' && cs[i + 2] == '/')
        invariant
            hi <= cs@.len(),
            t == cs@.take(hi as int),
            i <= hi,
            forall|j: int| 0 <= j < i ==> !is_scheme_sep_at(t, j),
        decreases hi - i,
    {
        i = i + 1;
    }
    let found = hi >= 3 && i <= hi - 3;
    if !found {
        proof {
            assert forall|j: int| !is_first_scheme_sep(t, j) by {
                if is_scheme_sep_at(t, j) {
                    assert(j < i);
                }
            }
        }
        return String::new();
    }
    let start: usize = i + 3;
    let ghost rest = t.skip(start as int);
    assert(is_first_scheme_sep(t, i as int));
    assert(forall|x: int| is_first_scheme_sep(t, x) ==> x == i) by {
        assert forall|x: int| is_first_scheme_sep(t, x) implies x == i by {
            if x < i {
            } else if x > i {
                assert(!is_scheme_sep_at(t, i as int));
            }
        }
    }
    let mut k: usize = start;
    while k < hi && cs[k] != '/'
        invariant
            start <= k <= hi,
            hi <= cs@.len(),
            t == cs@.take(hi as int),
            rest == t.skip(start as int),
            forall|j: int| 0 <= j < k - start ==> rest[j] != '/',
        decreases hi - k,
    {
        k = k + 1;
    }
    if k == hi {
        proof {
            assert forall|x: int| !is_first_slash(rest, x) by {
                if is_first_slash(rest, x) {
                    assert(rest[x] != '/');
                }
            }
        }
        return String::new();
    }
    let ghost kk = k - start;
    assert(is_first_slash(rest, kk));
    assert(forall|x: int| is_first_slash(rest, x) ==> x == kk) by {
        assert forall|x: int| is_first_slash(rest, x) implies x == kk by {
            if x < kk {
            } else if x > kk {
                assert(rest[kk] == '/');
            }
        }
    }
    let tail = sub_chars(&cs, k, hi);
    proof {
        let ci = choose|x: int| is_first_scheme_sep(t, x);
        assert(ci == i);
        let ck = choose|x: int| is_first_slash(rest, x);
        assert(ck == kk);
        assert(tail@ == rest.skip(kk));
        assert(url_path_of(base_url@) == rest.skip(kk));
    }
    string_from_chars(&tail)
}


/// What went wrong in a call of the exchange's API.
pub enum ApiError {
    /// A method other than `GET`, `POST` and `DELETE` was asked for.
    UnsupportedMethod(String),
    /// The exchange answered with a status outside 200..=299.
    RequestFailed { context: String, status: u16 },
    /// The balances hold no available amount for this currency.
    BalanceNotFound(String),
}

/// Succeeds exactly on a 2xx status; otherwise reports `context` and the
/// status.
pub fn require_success(status: u16, context: &str) -> (res: Result<(), ApiError>)
    ensures
        res is Ok <==> 200 <= status <= 299,
        res matches Err(e) ==> (e matches ApiError::RequestFailed { context: c, status: st } && c@
            == context@ && st == status),
{
    if 200 <= status && status <= 299 {
        Ok(())
    } else {
        Err(ApiError::RequestFailed { context: context.to_owned(), status })
    }
}

/// The currency named by a balance entry is `currency`
/// (`item["currency"] == currency`).
pub open spec fn holds_currency(item: Json, currency: Seq<char>) -> bool {
    item.field("currency"@).str_value() == Some(currency)
}

/// `i` is the first entry of `items` for `currency`.
pub open spec fn is_first_entry_for(items: Seq<Json>, currency: Seq<char>, i: int) -> bool {
    &&& 0 <= i < items.len()
    &&& holds_currency(items[i], currency)
    &&& forall|j: int| 0 <= j < i ==> !holds_currency(#[trigger] items[j], currency)
}

/// The `available` text of the first balance entry for `currency`, in a body
/// that is an array of entries.
pub open spec fn available_balance(body: Json, currency: Seq<char>) -> Option<Seq<char>> {
    match body.items() {
        Some(items) => {
            if exists|i: int| is_first_entry_for(items, currency, i) {
                let i = choose|i: int| is_first_entry_for(items, currency, i);
                items[i].field("available"@).str_value()
            } else {
                None
            }
        },
        None => None,
    }
}

/// `item` names the currency `currency` in a string member `currency`.
pub open spec fn names_currency(item: Json, currency: Seq<char>) -> bool {
    item.get_spec("currency"@) matches Some(Json::String(c)) && c@ == currency
}

/// The available balance read from `GET /balances` is the `available`
/// member of the first entry for the currency, whatever that entry's other
/// members (`reserved`, `total`, ...) hold; where that member is no string,
/// there is none.
pub proof fn lemma_available_is_the_first_entrys_available(
    body: Json,
    items: Seq<Json>,
    currency: Seq<char>,
    i: int,
)
    requires
        body matches Json::Array(v) && v@ == items,
        0 <= i < items.len(),
        names_currency(items[i], currency),
        forall|j: int| 0 <= j < i ==> !names_currency(#[trigger] items[j], currency),
    ensures
        forall|a: Seq<char>|
            (items[i].get_spec("available"@) matches Some(Json::String(s)) && s@ == a)
                ==> available_balance(body, currency) == Some(a),
        !(items[i].get_spec("available"@) matches Some(Json::String(_))) ==> available_balance(
            body,
            currency,
        ) is None,
{
    assert forall|j: int| 0 <= j < i implies !holds_currency(#[trigger] items[j], currency) by {
        if holds_currency(items[j], currency) {
            assert(names_currency(items[j], currency));
        }
    }
    assert(is_first_entry_for(items, currency, i));
    let k = choose|k: int| is_first_entry_for(items, currency, k);
    if k < i {
        assert(!holds_currency(items[k], currency));
    } else if k > i {
        assert(holds_currency(items[i], currency));
    }
    assert(k == i);
}

/// The available balance of a currency that no entry names is not found.
pub proof fn lemma_available_missing_currency(body: Json, items: Seq<Json>, currency: Seq<char>)
    requires
        body matches Json::Array(v) && v@ == items,
        forall|j: int| 0 <= j < items.len() ==> !names_currency(#[trigger] items[j], currency),
    ensures
        available_balance(body, currency) is None,
{
    assert forall|x: int| !is_first_entry_for(items, currency, x) by {
        if 0 <= x < items.len() && holds_currency(items[x], currency) {
            assert(names_currency(items[x], currency));
        }
    }
}

/// The available balance of `currency` in the body of `GET /balances`.
pub fn get_available(body: &Json, currency: &str) -> (res: Result<String, ApiError>)
    ensures
        res is Ok <==> available_balance(*body, currency@) is Some,
        res matches Ok(s) ==> available_balance(*body, currency@) == Some(s@),
        res matches Err(e) ==> (e matches ApiError::BalanceNotFound(c) && c@ == currency@),
{
    let not_found = ApiError::BalanceNotFound(currency.to_owned());
    match body {
        Json::Array(items) => {
            let n = items.len();
            for i in 0..n
                invariant
                    n == items@.len(),
                    body.items() == Some(items@),
                    not_found matches ApiError::BalanceNotFound(c) && c@ == currency@,
                    forall|j: int| 0 <= j < i ==> !holds_currency(#[trigger] items@[j], currency@),
            {
                let matches = match items[i].field_str("currency") {
                    Some(c) => str_eq(c.as_str(), currency),
                    None => false,
                };
                if matches {
                    proof {
                        assert(is_first_entry_for(items@, currency@, i as int));
                        assert forall|x: int| is_first_entry_for(items@, currency@, x) implies x
                            == i by {
                            if x < i {
                            } else if x > i {
                                assert(holds_currency(items@[i as int], currency@));
                            }
                        }
                    }
                    return match items[i].field_str("available") {
                        Some(a) => Ok(a),
                        None => Err(not_found),
                    };
                }
            }
            assert forall|x: int| !is_first_entry_for(items@, currency@, x) by {
                if 0 <= x < n {
                    assert(!holds_currency(items@[x], currency@));
                }
            }
            Err(not_found)
        },
        _ => Err(not_found),
    }
}

/// The orders in the body of `GET /orders/active`: the body itself where it
/// is an array, else its `data` member where that is an array.
pub open spec fn order_list(body: Json) -> Option<Seq<Json>> {
    match body.items() {
        Some(items) => Some(items),
        None => match body.get_spec("data"@) {
            Some(d) => d.items(),
            None => None,
        },
    }
}

/// The `client_order_id` text of an order.
pub open spec fn client_order_id_of(order: Json) -> Option<Seq<char>> {
    order.field("client_order_id"@).str_value()
}

/// The client order ids of the active orders, in order, leaving out orders
/// without one.
pub open spec fn active_order_ids(body: Json) -> Seq<Seq<char>> {
    match order_list(body) {
        Some(items) => items.filter_map(|o: Json| client_order_id_of(o)),
        None => Seq::empty(),
    }
}

/// `order` has the string member `client_order_id` with text `id`.
pub open spec fn has_client_order_id(order: Json, id: Seq<char>) -> bool {
    order.get_spec("client_order_id"@) matches Some(Json::String(s)) && s@ == id
}

/// `orders` is what `body` lists as active orders: the body itself as an
/// array, or else the array in its `data` member.
pub open spec fn lists_orders(body: Json, orders: Seq<Json>) -> bool {
    ||| body matches Json::Array(v) && v@ == orders
    ||| (!(body is Array) && (body.get_spec("data"@) matches Some(Json::Array(v)) && v@
        == orders))
}

proof fn lemma_order_list_of_listed(body: Json, orders: Seq<Json>)
    requires
        lists_orders(body, orders),
    ensures
        order_list(body) == Some(orders),
{
}

proof fn lemma_ids_of_all(orders: Seq<Json>, ids: Seq<Seq<char>>)
    requires
        orders.len() == ids.len(),
        forall|i: int| 0 <= i < orders.len() ==> has_client_order_id(#[trigger] orders[i], ids[i]),
    ensures
        orders.filter_map(|o: Json| client_order_id_of(o)) == ids,
    decreases orders.len(),
{
    if orders.len() > 0 {
        let n = orders.len() - 1;
        assert forall|i: int| 0 <= i < n implies has_client_order_id(
            #[trigger] orders.drop_last()[i],
            ids.drop_last()[i],
        ) by {
            assert(has_client_order_id(orders[i], ids[i]));
        }
        lemma_ids_of_all(orders.drop_last(), ids.drop_last());
        assert(has_client_order_id(orders[n], ids[n]));
        assert(client_order_id_of(orders.last()) == Some(ids[n]));
        assert(ids == ids.drop_last() + seq![ids[n]]);
    }
}

proof fn lemma_id_kept(orders: Seq<Json>, i: int, id: Seq<char>)
    requires
        0 <= i < orders.len(),
        has_client_order_id(orders[i], id),
    ensures
        orders.filter_map(|o: Json| client_order_id_of(o)).contains(id),
    decreases orders.len(),
{
    let f = |o: Json| client_order_id_of(o);
    let n = orders.len() - 1;
    let rest = orders.drop_last();
    assert(f(orders[i]) == Some(id));
    if i == n {
        assert(orders.filter_map(f) == rest.filter_map(f) + seq![id]);
        assert(orders.filter_map(f)[rest.filter_map(f).len() as int] == id);
    } else {
        assert(rest[i] == orders[i]);
        lemma_id_kept(rest, i, id);
        let k = choose|k: int| 0 <= k < rest.filter_map(f).len() && rest.filter_map(f)[k] == id;
        match f(orders.last()) {
            Some(x) => {
                assert(orders.filter_map(f) == rest.filter_map(f) + seq![x]);
                assert(orders.filter_map(f)[k] == id);
            },
            None => {
                assert(orders.filter_map(f) == rest.filter_map(f));
            },
        }
    }
}

/// Every listed order with a string `client_order_id` is reported as active
/// under that id, whatever its other members (such as `state`) hold.
pub proof fn lemma_listed_ids_are_active(body: Json, orders: Seq<Json>)
    requires
        lists_orders(body, orders),
    ensures
        forall|i: int, id: Seq<char>|
            0 <= i < orders.len() && #[trigger] has_client_order_id(orders[i], id)
                ==> active_order_ids(body).contains(id),
{
    lemma_order_list_of_listed(body, orders);
    assert forall|i: int, id: Seq<char>|
        0 <= i < orders.len() && #[trigger] has_client_order_id(
            orders[i],
            id,
        ) implies active_order_ids(body).contains(id) by {
        lemma_id_kept(orders, i, id);
    }
}

/// Where every listed order has a string `client_order_id`, the active ids
/// are exactly those ids, in the order listed.
pub proof fn lemma_active_ids_exact(body: Json, orders: Seq<Json>, ids: Seq<Seq<char>>)
    requires
        lists_orders(body, orders),
        ids.len() == orders.len(),
        forall|i: int| 0 <= i < orders.len() ==> has_client_order_id(#[trigger] orders[i], ids[i]),
    ensures
        active_order_ids(body) == ids,
{
    lemma_order_list_of_listed(body, orders);
    lemma_ids_of_all(orders, ids);
}

/// Every reported id is the `client_order_id` of some listed order, and
/// there are no more ids than listed orders; a body that lists no orders
/// (neither an array nor an object with an array `data`) has none.
pub proof fn lemma_active_ids_come_from_listed_orders(body: Json, orders: Seq<Json>)
    requires
        lists_orders(body, orders),
    ensures
        active_order_ids(body).len() <= orders.len(),
        forall|id: Seq<char>|
            #[trigger] active_order_ids(body).contains(id) ==> exists|i: int|
                0 <= i < orders.len() && has_client_order_id(#[trigger] orders[i], id),
{
    lemma_order_list_of_listed(body, orders);
    let f = |o: Json| client_order_id_of(o);
    lemma_filter_map_len(orders);
    assert forall|id: Seq<char>| #[trigger] active_order_ids(body).contains(id) implies exists|i: int|
        0 <= i < orders.len() && has_client_order_id(#[trigger] orders[i], id) by {
        orders.lemma_filter_map_contains(f, id);
        let t = choose|t: Json| #[trigger] orders.contains(t) && f(t) == Some(id);
        let i = choose|i: int| 0 <= i < orders.len() && orders[i] == t;
        assert(has_client_order_id(orders[i], id));
    }
}

proof fn lemma_filter_map_len(orders: Seq<Json>)
    ensures
        orders.filter_map(|o: Json| client_order_id_of(o)).len() <= orders.len(),
    decreases orders.len(),
{
    if orders.len() > 0 {
        lemma_filter_map_len(orders.drop_last());
    }
}

/// A body that lists no orders reports no active ids.
pub proof fn lemma_no_list_no_ids(body: Json)
    requires
        !(body is Array),
        !(body.get_spec("data"@) matches Some(Json::Array(_))),
    ensures
        active_order_ids(body).len() == 0,
{
}

/// The client order ids listed in the body of `GET /orders/active`.
pub fn get_active_order_ids(body: &Json) -> (res: Vec<String>)
    ensures
        res@.map_values(|s: String| s@) == active_order_ids(*body),
{
    let list: Option<&Vec<Json>> = match body {
        Json::Array(items) => Some(items),
        _ => match body.get("data") {
            Some(Json::Array(items)) => Some(items),
            _ => None,
        },
    };
    let mut res: Vec<String> = Vec::new();
    match list {
        Some(items) => {
            let ghost f = |o: Json| client_order_id_of(o);
            assert(order_list(*body) == Some(items@));
            let n = items.len();
            for i in 0..n
                invariant
                    n == items@.len(),
                    f == (|o: Json| client_order_id_of(o)),
                    res@.map_values(|s: String| s@) == items@.take(i as int).filter_map(f),
            {
                let ghost before = res@;
                let ghost t = items@.take(i + 1);
                assert(t.drop_last() == items@.take(i as int));
                assert(t.last() == items@[i as int]);
                match items[i].field_str("client_order_id") {
                    Some(id) => {
                        res.push(id);
                        assert(res@ == before.push(res@.last()));
                        assert(res@.map_values(|s: String| s@) =~= before.map_values(
                            |s: String| s@,
                        ) + seq![res@.last()@]);
                    },
                    None => {
                        assert(res@ == before);
                    },
                }
            }
            assert(items@.take(n as int) == items@);
        },
        None => {},
    }
    res
}


/// For `/balances` an entry is shown exactly when its currency is the text
/// `USD` or the text `LTC`: an entry for any other currency (`USDC`, `LTC2`,
/// ...) is left out, and so is one without a string currency.
pub proof fn lemma_balances_shown_are_usd_and_ltc(items: Seq<Json>, item: Json)
    ensures
        items.filter(|i: Json| is_shown_balance(i)).contains(item) <==> items.contains(item)
            && (names_currency(item, "USD"@) || names_currency(item, "LTC"@)),
{
    let p = |i: Json| is_shown_balance(i);
    assert(is_shown_balance(item) <==> (names_currency(item, "USD"@) || names_currency(
        item,
        "LTC"@,
    )));
    if items.filter(p).contains(item) {
        items.lemma_filter_contains_rev(p, item);
        let k = choose|k: int| 0 <= k < items.filter(p).len() && items.filter(p)[k] == item;
        items.lemma_filter_pred(p, k);
    }
    if items.contains(item) && p(item) {
        let k = choose|k: int| 0 <= k < items.len() && items[k] == item;
        items.lemma_filter_contains(p, k);
    }
}

/// The entries shown for `/balances` are entries of the body, no more of
/// them than it has, and where every entry is for `USD` or `LTC` all of them
/// are shown, in order.
pub proof fn lemma_balances_shown_subsequence(items: Seq<Json>)
    ensures
        items.filter(|i: Json| is_shown_balance(i)).len() <= items.len(),
        (forall|k: int|
            0 <= k < items.len() ==> names_currency(#[trigger] items[k], "USD"@) || names_currency(
                items[k],
                "LTC"@,
            )) ==> items.filter(|i: Json| is_shown_balance(i)) == items,
    decreases items.len(),
{
    reveal_with_fuel(Seq::filter, 1);
    let p = |i: Json| is_shown_balance(i);
    if items.len() > 0 {
        lemma_balances_shown_subsequence(items.drop_last());
        if forall|k: int|
            0 <= k < items.len() ==> names_currency(#[trigger] items[k], "USD"@) || names_currency(
                items[k],
                "LTC"@,
            ) {
            let r = items.drop_last();
            assert forall|k: int| 0 <= k < r.len() implies names_currency(
                #[trigger] r[k],
                "USD"@,
            ) || names_currency(r[k], "LTC"@) by {
                assert(r[k] == items[k]);
            }
            let l = items.len() - 1;
            assert(names_currency(items[l], "USD"@) || names_currency(items[l], "LTC"@));
            assert(p(items.last()));
            assert(items == r.push(items.last()));
        }
    }
}

/// A balance entry that `GET /balances` shows: one for `USD` or for `LTC`.
pub open spec fn is_shown_balance(item: Json) -> bool {
    let c = item.field("currency"@).str_value();
    c == Some("USD"@) || c == Some("LTC"@)
}

fn shown_balance(item: &Json) -> (res: bool)
    ensures
        res == is_shown_balance(*item),
{
    match item.field_str("currency") {
        Some(c) => str_eq(c.as_str(), "USD") || str_eq(c.as_str(), "LTC"),
        None => false,
    }
}

/// What a `GET` prints of the body it got: for `/balances` the `USD` and
/// `LTC` entries, in order (none where the body is no array); for any other
/// path the whole body.
pub fn send_get_output(path: &str, body: Json) -> (res: Json)
    ensures
        path@ == "/balances"@ ==> (res matches Json::Array(v) && v@ == match body.items() {
            Some(items) => items.filter(|i: Json| is_shown_balance(i)),
            None => Seq::empty(),
        }),
        path@ != "/balances"@ ==> res == body,
{
    if !str_eq(path, "/balances") {
        return body;
    }
    let ghost p = |i: Json| is_shown_balance(i);
    let mut shown: Vec<Json> = Vec::new();
    match body {
        Json::Array(items) => {
            let ghost all = items@;
            for item in it: items.into_iter()
                invariant
                    p == (|i: Json| is_shown_balance(i)),
                    it.seq() == all,
                    shown@ == all.take(it.index() as int).filter(p),
            {
                let ghost k = it.index();
                let ghost before = shown@;
                proof {
                    assert(all.take(k + 1).drop_last() == all.take(k as int));
                    assert(all.take(k + 1).last() == item);
                    reveal_with_fuel(Seq::filter, 1);
                }
                if shown_balance(&item) {
                    shown.push(item);
                }
            }
            assert(all.take(all.len() as int) == all);
        },
        _ => {},
    }
    Json::Array(shown)
}


/// The HTTP methods that the API is called with.
#[derive(PartialEq, Eq, Structural)]
pub enum HttpMethod {
    Get,
    Post,
    Delete,
}

/// The method that `method` names, where it is one of `GET`, `POST` and
/// `DELETE`.
pub open spec fn method_named(method: Seq<char>) -> Option<HttpMethod> {
    if method == "GET"@ {
        Some(HttpMethod::Get)
    } else if method == "POST"@ {
        Some(HttpMethod::Post)
    } else if method == "DELETE"@ {
        Some(HttpMethod::Delete)
    } else {
        None
    }
}

/// A request ready to be sent: method, full URL, headers in order, and the
/// body where there is one.
pub struct SignedRequest {
    pub method: HttpMethod,
    pub url: String,
    pub headers: Vec<(String, String)>,
    pub body: Option<String>,
}

/// Header `h` has name `name` and value `value`.
pub open spec fn header_is(h: (String, String), name: Seq<char>, value: Seq<char>) -> bool {
    h.0@ == name && h.1@ == value
}

/// The URL that a request for `path` goes to: the base URL without trailing
/// slashes, then the path.
pub open spec fn request_url(base_url: Seq<char>, path: Seq<char>) -> Seq<char> {
    trim_end_slashes(base_url) + path
}

/// The path that is signed for a request for `path`: the base URL's own
/// path, then `path`.
pub open spec fn signed_path(base_url: Seq<char>, path: Seq<char>) -> Seq<char> {
    url_path_of(base_url) + path
}

/// The signed path of a URL written as a scheme, `://`, a host and a path
/// is exactly that path (for `https://host/api/1.0` it is `/api/1.0`),
/// however many slashes end the URL: nothing of the scheme or host, and
/// all of the path. A request for `req_path` goes to that URL without its
/// trailing slashes, followed by `req_path`.
pub proof fn lemma_url_path_of_parts(
    scheme: Seq<char>,
    host: Seq<char>,
    path: Seq<char>,
    trail: Seq<char>,
    req_path: Seq<char>,
)
    requires
        forall|i: int| 0 <= i < scheme.len() ==> #[trigger] scheme[i] != ':',
        host.len() > 0,
        forall|i: int| 0 <= i < host.len() ==> #[trigger] host[i] != '/',
        path.len() == 0 || (path[0] == '/' && path.last() != '/'),
        forall|i: int| 0 <= i < trail.len() ==> #[trigger] trail[i] == '/',
    ensures
        url_path_of(scheme + seq![':', '/', '/'] + host + path + trail) == path,
        request_url(scheme + seq![':', '/', '/'] + host + path + trail, req_path) == scheme
            + seq![':', '/', '/'] + host + path + req_path,
{
    let sep = seq![':', '/', '/'];
    let u = scheme + sep + host + path;
    let b = u + trail;
    assert forall|j: int| u.len() <= j < b.len() implies #[trigger] b[j] == '/' by {
        assert(b[j] == trail[j - u.len()]);
    }
    lemma_trim_end_slashes_take(b, u.len() as int);
    assert(b.take(u.len() as int) == u);
    if path.len() > 0 {
        assert(u.last() == path.last());
    } else {
        assert(u.last() == host.last());
    }
    assert(trim_end_slashes(u) == u);
    let i0 = scheme.len() as int;
    assert(is_scheme_sep_at(u, i0));
    assert forall|j: int| 0 <= j < i0 implies !is_scheme_sep_at(u, j) by {
        assert(u[j] == scheme[j]);
    }
    assert(is_first_scheme_sep(u, i0));
    let ci = choose|i: int| is_first_scheme_sep(u, i);
    if ci < i0 {
    } else if ci > i0 {
        assert(is_scheme_sep_at(u, i0));
    }
    assert(ci == i0);
    let rest = u.skip(i0 + 3);
    assert(rest == host + path);
    if path.len() > 0 {
        let k = host.len() as int;
        assert(rest[k] == path[0]);
        assert forall|j: int| 0 <= j < k implies rest[j] != '/' by {
            assert(rest[j] == host[j]);
        }
        assert(is_first_slash(rest, k));
        let ck = choose|x: int| is_first_slash(rest, x);
        if ck < k {
        } else if ck > k {
            assert(rest[k] == '/');
        }
        assert(rest.skip(k) == path);
    } else {
        assert(rest == host);
        assert forall|x: int| !is_first_slash(rest, x) by {
            if 0 <= x < rest.len() {
                assert(rest[x] == host[x]);
            }
        }
    }
}

/// The path that is signed is the end of the URL that the request goes to:
/// the URL is some scheme and host followed by exactly the signed path.
pub proof fn lemma_signed_path_ends_url(base_url: Seq<char>, path: Seq<char>)
    ensures
        signed_path(base_url, path).len() <= request_url(base_url, path).len(),
        request_url(base_url, path) == request_url(base_url, path).take(
            request_url(base_url, path).len() - signed_path(base_url, path).len(),
        ) + signed_path(base_url, path),
{
    let t = trim_end_slashes(base_url);
    let u = url_path_of(base_url);
    let start: int = if exists|i: int| is_first_scheme_sep(t, i) {
        let i = choose|i: int| is_first_scheme_sep(t, i);
        let rest = t.skip(i + 3);
        if exists|k: int| is_first_slash(rest, k) {
            let k = choose|k: int| is_first_slash(rest, k);
            assert(rest.skip(k) == t.skip(i + 3 + k));
            i + 3 + k
        } else {
            t.len() as int
        }
    } else {
        t.len() as int
    };
    assert(0 <= start <= t.len());
    assert(u == t.skip(start));
    assert(t == t.take(start) + u);
    let url = request_url(base_url, path);
    assert(url == t.take(start) + (u + path));
    assert(url.take(url.len() - (u + path).len()) == t.take(start));
}

fn header(name: &str, value: String) -> (res: (String, String))
    ensures
        res.0@ == name@,
        res.1@ == value@,
{
    (name.to_owned(), value)
}

/// `base_url` without its trailing slashes.
pub fn trim_trailing_slashes(base_url: &str) -> (res: String)
    ensures
        res@ == trim_end_slashes(base_url@),
{
    let cs = chars_of(base_url);
    let hi = slash_trimmed_len(&cs);
    let kept = sub_chars(&cs, 0, hi);
    assert(kept@ == cs@.take(hi as int));
    string_from_chars(&kept)
}

/// The signed request for `method` on `path` with `body`, made at
/// `timestamp` (milliseconds since the Unix epoch) by the holder of
/// `api_key`. It carries the headers `Accept`, `X-Revx-API-Key`,
/// `X-Revx-Timestamp` and `X-Revx-Signature`, and `Content-Type` where the
/// body is not empty. A method other than `GET`, `POST` and `DELETE` is
/// refused.
pub fn signed_request(
    base_url: &str,
    private_key: &PrivateKey,
    method: &str,
    path: &str,
    body: &str,
    api_key: &str,
    timestamp: u128,
) -> (res: Result<SignedRequest, ApiError>)
    ensures
        res is Err <==> method_named(method@) is None,
        res matches Err(e) ==> (e matches ApiError::UnsupportedMethod(m) && m@ == method@),
        res matches Ok(r) ==> {
            &&& Some(r.method) == method_named(method@)
            &&& r.url@ == request_url(base_url@, path@)
            &&& r.headers@.len() == if body@.len() == 0 { 4int } else { 5int }
            &&& header_is(r.headers@[0], "Accept"@, "application/json"@)
            &&& header_is(r.headers@[1], "X-Revx-API-Key"@, api_key@)
            &&& header_is(r.headers@[2], "X-Revx-Timestamp"@, decimal(timestamp as nat))
            &&& header_is(
                r.headers@[3],
                "X-Revx-Signature"@,
                request_signature(
                    private_key@,
                    timestamp as nat,
                    method@,
                    signed_path(base_url@, path@),
                    ""@,
                    body@,
                ),
            )
            &&& body@.len() != 0 ==> header_is(
                r.headers@[4],
                "Content-Type"@,
                "application/json"@,
            )
            &&& body@.len() == 0 ==> r.body is None
            &&& body@.len() != 0 ==> (r.body matches Some(b) && b@ == body@)
        },
{
    let mut sign_path = url_path(base_url);
    sign_path.append(path);
    let signature = sign_request(private_key, method, sign_path.as_str(), "", body, timestamp);
    let mut url = trim_trailing_slashes(base_url);
    url.append(path);
    let http_method = if str_eq(method, "GET") {
        HttpMethod::Get
    } else if str_eq(method, "POST") {
        HttpMethod::Post
    } else if str_eq(method, "DELETE") {
        HttpMethod::Delete
    } else {
        return Err(ApiError::UnsupportedMethod(method.to_owned()));
    };
    let mut headers: Vec<(String, String)> = Vec::new();
    headers.push(header("Accept", "application/json".to_owned()));
    headers.push(header("X-Revx-API-Key", api_key.to_owned()));
    headers.push(header("X-Revx-Timestamp", decimal_string(timestamp)));
    headers.push(header("X-Revx-Signature", signature));
    let request_body = if body.is_empty() {
        None
    } else {
        headers.push(header("Content-Type", "application/json".to_owned()));
        Some(body.to_owned())
    };
    Ok(SignedRequest { method: http_method, url, headers, body: request_body })
}


/// The limit part of an order: a quote size for a buy, a base size for a
/// sell, the limit price, and the execution instructions.
pub struct LimitConfig {
    pub quote_size: Option<String>,
    pub base_size: Option<String>,
    pub price: String,
    pub execution_instructions: Vec<String>,
}

/// How an order is executed.
pub struct OrderConfiguration {
    pub limit: LimitConfig,
}

/// The body of `POST /orders`.
pub struct PlaceOrderRequest {
    pub client_order_id: String,
    pub symbol: String,
    pub side: String,
    pub order_configuration: OrderConfiguration,
}

/// `o` is `Some` of a string whose text is `text`.
pub open spec fn is_some_text(o: Option<String>, text: Seq<char>) -> bool {
    o matches Some(s) && s@ == text
}

/// The limit order on `LTC-USD` for `side`, of `size` at `price`, under
/// `client_order_id`, that may take liquidity: for a `buy` the size is a
/// quote size (USD to spend), for any other side a base size (LTC to sell).
pub fn order_request(side: &str, size: &str, price: &str, client_order_id: &str) -> (res:
    PlaceOrderRequest)
    ensures
        res.client_order_id@ == client_order_id@,
        res.symbol@ == "LTC-USD"@,
        res.side@ == side@,
        side@ == "buy"@ ==> is_some_text(res.order_configuration.limit.quote_size, size@)
            && res.order_configuration.limit.base_size is None,
        side@ != "buy"@ ==> is_some_text(res.order_configuration.limit.base_size, size@)
            && res.order_configuration.limit.quote_size is None,
        res.order_configuration.limit.price@ == price@,
        res.order_configuration.limit.execution_instructions@.len() == 1,
        res.order_configuration.limit.execution_instructions@[0]@ == "allow_taker"@,
{
    let is_buy = str_eq(side, "buy");
    let mut instructions: Vec<String> = Vec::new();
    instructions.push("allow_taker".to_owned());
    let limit = LimitConfig {
        quote_size: if is_buy {
            Some(size.to_owned())
        } else {
            None
        },
        base_size: if is_buy {
            None
        } else {
            Some(size.to_owned())
        },
        price: price.to_owned(),
        execution_instructions: instructions,
    };
    PlaceOrderRequest {
        client_order_id: client_order_id.to_owned(),
        symbol: "LTC-USD".to_owned(),
        side: side.to_owned(),
        order_configuration: OrderConfiguration { limit },
    }
}

} // verus!
