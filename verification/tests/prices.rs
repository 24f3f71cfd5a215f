use hash_miner::chain::{ChainCtx, ChainError};
use hash_miner::price::{price_in, PriceError, PRICE_TIMEOUT_SECS};
use serde_json::Value;

fn price(body: &str) -> Result<String, PriceError> {
    ChainCtx::fetch_hash_usd(body.as_bytes())
}

#[test]
fn the_first_pair_has_the_price() {
    let body = r#"{"pairs":[{"priceUsd":"0.2200"},{"priceUsd":"9"}]}"#;
    assert_eq!(price(body).ok().unwrap(), "0.2200");
    assert_eq!(PRICE_TIMEOUT_SECS, 8);
}

#[test]
fn a_reply_without_a_price_is_an_error() {
    for body in [
        "{}",
        "[]",
        "null",
        r#"{"pairs":null}"#,
        r#"{"pairs":[]}"#,
        r#"{"pairs":{"0":{"priceUsd":"1"}}}"#,
        r#"{"pairs":[{}]}"#,
        r#"{"pairs":[{"priceUsd":0.22}]}"#,
        r#"{"pairs":[["priceUsd"]]}"#,
        r#"[{"pairs":[{"priceUsd":"1"}]}]"#,
    ] {
        match price(body).err().unwrap() {
            PriceError::Chain(e) => {
                assert!(matches!(e, ChainError::NoPrice));
                assert_eq!(e.message(), "DEX Screener 未返回有效 priceUsd");
            }
            PriceError::NotJson(_) => panic!(),
        }
    }
}

#[test]
fn a_reply_that_is_no_json_is_an_error() {
    for body in ["", "<html>", "{\"pairs\":", "{} {}"] {
        assert!(matches!(price(body).err().unwrap(), PriceError::NotJson(_)));
    }
}

#[test]
fn a_price_is_found_in_a_value() {
    let mut pair = serde_json::Map::new();
    pair.insert("priceUsd".to_string(), Value::String("7".to_string()));
    let mut reply = serde_json::Map::new();
    reply.insert("pairs".to_string(), Value::Array(vec![Value::Object(pair)]));
    assert_eq!(price_in(&Value::Object(reply)).ok().unwrap(), "7");
    assert!(price_in(&Value::Null).is_err());
}

#[test]
fn the_price_is_asked_for_by_contract() {
    let key = "0000000000000000000000000000000000000000000000000000000000000001";
    let contract = "0x5f4ec3df9cbd43714fe2740f5e3616155c5b8419";
    let c = ChainCtx::new(key, contract, String::new(), String::new(), 1, 1).ok().unwrap();
    assert_eq!(
        c.hash_usd_url(),
        "https://api.dexscreener.com/latest/dex/tokens/0x5f4eC3Df9cbd43714FE2740f5E3616155c5b8419"
    );
}
