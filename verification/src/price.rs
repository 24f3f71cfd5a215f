//! The token's price: where it is asked for, and what the reply says.

use crate::account::address_text;
use crate::chain::{ChainCtx, ChainError};
use serde_json::Value;
use vstd::prelude::*;
use vstd::string::*;

verus! {

use crate::account::checksummed;

/// Seconds that the price service is given to answer.
pub const PRICE_TIMEOUT_SECS: u64 = 8;

/// A JSON value.
#[verifier::external_type_specification]
#[verifier::external_body]
pub struct ExJsonValue(serde_json::Value);

/// The error of reading JSON.
#[verifier::external_type_specification]
#[verifier::external_body]
pub struct ExJsonError(serde_json::Error);

/// The value that bytes of JSON text stand for, where they are that.
pub uninterp spec fn json_value(text: Seq<u8>) -> Option<Value>;

/// What an object holds, under each key; nothing where the value is no object.
pub uninterp spec fn json_members(v: Value) -> Option<Map<Seq<char>, Value>>;

/// What an array holds, in order; nothing where the value is no array.
pub uninterp spec fn json_items(v: Value) -> Option<Seq<Value>>;

/// The characters of a string; nothing where the value is no string.
pub uninterp spec fn json_text(v: Value) -> Option<Seq<char>>;

/// `serde_json::from_slice`, into a `Value`: what comes out, and whether it
/// fails, depends on the bytes alone.
#[verifier::external_body]
fn read_json(text: &[u8]) -> (r: Result<Value, serde_json::Error>)
    ensures
        match r {
            Ok(v) => json_value(text@) == Some(v),
            Err(_) => json_value(text@) is None,
        },
{
    serde_json::from_slice(text)
}

/// The member of an object under a key.
pub open spec fn member(v: Value, key: Seq<char>) -> Option<Value> {
    match json_members(v) {
        Some(m) => if m.dom().contains(key) {
            Some(m[key])
        } else {
            None
        },
        None => None,
    }
}

/// `Value::get` with a string: the member of an object under that key, and
/// nothing where there is none or the value is no object.
#[verifier::external_body]
fn json_member<'a>(v: &'a Value, key: &str) -> (r: Option<&'a Value>)
    ensures
        r matches Some(m) ==> json_members(*v) is Some && json_members(*v)->0.dom().contains(key@)
            && json_members(*v)->0[key@] == *m,
        r is None ==> json_members(*v) is None || !json_members(*v)->0.dom().contains(key@),
{
    v.get(key)
}

/// The item of an array at a position.
pub open spec fn item(v: Value, i: int) -> Option<Value> {
    match json_items(v) {
        Some(s) => if 0 <= i < s.len() {
            Some(s[i])
        } else {
            None
        },
        None => None,
    }
}

/// `Value::get` with a number: the item of an array at that position, and
/// nothing where there is none or the value is no array.
#[verifier::external_body]
fn json_item(v: &Value, i: usize) -> (r: Option<&Value>)
    ensures
        r matches Some(m) ==> json_items(*v) is Some && i < json_items(*v)->0.len()
            && json_items(*v)->0[i as int] == *m,
        r is None ==> json_items(*v) is None || i >= json_items(*v)->0.len(),
{
    v.get(i)
}

/// `Value::as_str`: the characters of a string, and nothing where the value is
/// none.
#[verifier::external_body]
fn json_str(v: &Value) -> (r: Option<String>)
    ensures
        r matches Some(t) ==> json_text(*v) == Some(t@),
        r is None ==> json_text(*v) is None,
{
    v.as_str().map(|s| s.to_owned())
}

/// The price that a reply states, as text: the `priceUsd` of the first of its
/// `pairs`, which is the pool with the most liquidity.
pub open spec fn stated_price(reply: Value) -> Option<Seq<char>> {
    match member(reply, "pairs"@) {
        Some(pairs) => match item(pairs, 0) {
            Some(pair) => match member(pair, "priceUsd"@) {
                Some(price) => json_text(price),
                None => None,
            },
            None => None,
        },
        None => None,
    }
}

/// Why a reply gives no price.
pub enum PriceError {
    /// It is no JSON.
    NotJson(serde_json::Error),
    /// It states no price.
    Chain(ChainError),
}

/// The price that a reply states, as text.
pub fn price_in(reply: &Value) -> (r: Result<String, ChainError>)
    ensures
        match r {
            Ok(t) => stated_price(*reply) == Some(t@),
            Err(e) => e == ChainError::NoPrice && stated_price(*reply) is None,
        },
{
    let pairs = match json_member(reply, "pairs") {
        Some(p) => p,
        None => {
            return Err(ChainError::NoPrice);
        },
    };
    let pair = match json_item(pairs, 0) {
        Some(p) => p,
        None => {
            return Err(ChainError::NoPrice);
        },
    };
    let price = match json_member(pair, "priceUsd") {
        Some(p) => p,
        None => {
            return Err(ChainError::NoPrice);
        },
    };
    match json_str(price) {
        Some(t) => Ok(t),
        None => Err(ChainError::NoPrice),
    }
}

impl ChainCtx {
    /// Where the token's price is asked for.
    pub fn hash_usd_url(&self) -> (url: String)
        ensures
            url@ == "https://api.dexscreener.com/latest/dex/tokens/"@ + checksummed(
                self.contract@,
            ),
    {
        let mut url: String = "https://api.dexscreener.com/latest/dex/tokens/".to_owned();
        url.append(address_text(&self.contract).as_str());
        url
    }

    /// The price that the reply of the price service states, as text.
    pub fn fetch_hash_usd(body: &[u8]) -> (r: Result<String, PriceError>)
        ensures
            match json_value(body@) {
                Some(reply) => match stated_price(reply) {
                    Some(t) => r is Ok && r->Ok_0@ == t,
                    None => r matches Err(PriceError::Chain(ChainError::NoPrice)),
                },
                None => r matches Err(PriceError::NotJson(_)),
            },
    {
        match read_json(body) {
            Ok(reply) => match price_in(&reply) {
                Ok(t) => Ok(t),
                Err(e) => Err(PriceError::Chain(e)),
            },
            Err(e) => Err(PriceError::NotJson(e)),
        }
    }
}

/// A reply states a price exactly where it is an object with an array under
/// `pairs` whose first item is an object with a string under `priceUsd`; the
/// price is that string.
pub proof fn law_stated_price(
    reply: Value,
    members: Map<Seq<char>, Value>,
    items: Seq<Value>,
    first: Map<Seq<char>, Value>,
    text: Seq<char>,
)
    ensures
        json_members(reply) == Some(members) && members.dom().contains("pairs"@) && json_items(
            members["pairs"@],
        ) == Some(items) && items.len() > 0 && json_members(items[0]) == Some(first)
            && first.dom().contains("priceUsd"@) && json_text(first["priceUsd"@]) == Some(text)
            ==> stated_price(reply) == Some(text),
        json_members(reply) is None ==> stated_price(reply) is None,
        json_members(reply) == Some(members) && !members.dom().contains("pairs"@) ==> stated_price(
            reply,
        ) is None,
        json_members(reply) == Some(members) && members.dom().contains("pairs"@) && json_items(
            members["pairs"@],
        ) is None ==> stated_price(reply) is None,
        json_members(reply) == Some(members) && members.dom().contains("pairs"@) && json_items(
            members["pairs"@],
        ) == Some(items) ==> {
            &&& items.len() == 0 ==> stated_price(reply) is None
            &&& json_members(items[0]) is None ==> stated_price(reply) is None
            &&& json_members(items[0]) == Some(first) && !first.dom().contains("priceUsd"@)
                ==> stated_price(reply) is None
            &&& json_members(items[0]) == Some(first) && json_text(first["priceUsd"@]) is None
                ==> stated_price(reply) is None
        },
{
}

} // verus!
