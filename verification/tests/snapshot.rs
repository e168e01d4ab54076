use up_bank_cli::codec::{
    encode_api_response, encode_page, encode_transactions, parse_api_response, parse_page,
    parse_transactions,
};
use up_bank_cli::model::{
    Account, AccountAttributes, Amount, ApiResponse, Balance, DataStruct, Links,
    PerformingCustomer, TransactionAttributes, Transactions,
};
use up_bank_cli::ui::App;

fn full_tx() -> Transactions {
    Transactions {
        attributes: TransactionAttributes {
            description: Some("Coffee".to_string()),
            message: Some("thanks".to_string()),
            round_up: Some(Amount {
                currency_code: Some("AUD".to_string()),
                value: Some("0.55".to_string()),
            }),
            amount: Some(Amount {
                currency_code: Some("AUD".to_string()),
                value: Some("-4.45".to_string()),
            }),
            performing_customer: Some(PerformingCustomer {
                display_name: Some("Alice".to_string()),
            }),
            settled_at: Some("2023-01-02T03:04:05+10:00".to_string()),
        },
    }
}

fn bare_tx() -> Transactions {
    Transactions {
        attributes: TransactionAttributes {
            description: None,
            message: None,
            round_up: None,
            amount: None,
            performing_customer: None,
            settled_at: None,
        },
    }
}

fn account(units: i32) -> Account {
    Account {
        account_id: "acc-001".to_string(),
        attributes: AccountAttributes {
            display_name: "Spending".to_string(),
            account_type: "TRANSACTIONAL".to_string(),
            ownership_type: "INDIVIDUAL".to_string(),
            balance: Balance {
                currency_code: "AUD".to_string(),
                value: "123.45".to_string(),
                value_in_base_units: units,
            },
            created_at: "2023-01-01".to_string(),
        },
    }
}

#[test]
fn transactions_round_trip_with_every_field() {
    let txs = vec![full_tx(), bare_tx(), full_tx()];
    let text = encode_transactions(&txs);
    let parsed = parse_transactions(&text).expect("snapshot should load back");
    assert_eq!(parsed, txs);
}

#[test]
fn absent_fields_stay_absent_through_the_round_trip() {
    let txs = vec![bare_tx()];
    let text = encode_transactions(&txs);
    assert_eq!(
        text,
        "[{\"attributes\":{\"description\":null,\"message\":null,\"roundUp\":null,\
         \"amount\":null,\"performingCustomer\":null,\"settledAt\":null}}]"
    );
    let parsed = parse_transactions(&text).expect("snapshot should load back");
    assert!(parsed[0].attributes.description.is_none());
    assert!(parsed[0].attributes.message.is_none());
    assert!(parsed[0].attributes.round_up.is_none());
    assert!(parsed[0].attributes.amount.is_none());
    assert!(parsed[0].attributes.performing_customer.is_none());
    assert!(parsed[0].attributes.settled_at.is_none());
}

#[test]
fn empty_snapshot_is_an_empty_array() {
    let txs: Vec<Transactions> = Vec::new();
    let text = encode_transactions(&txs);
    assert_eq!(text, "[]");
    let parsed = parse_transactions(&text).expect("empty snapshot should load back");
    assert!(parsed.is_empty());
}

#[test]
fn one_transaction_encodes_exactly() {
    let text = encode_transactions(&vec![full_tx()]);
    assert_eq!(
        text,
        "[{\"attributes\":{\"description\":\"Coffee\",\"message\":\"thanks\",\
         \"roundUp\":{\"currencyCode\":\"AUD\",\"value\":\"0.55\"},\
         \"amount\":{\"currencyCode\":\"AUD\",\"value\":\"-4.45\"},\
         \"performingCustomer\":{\"displayName\":\"Alice\"},\
         \"settledAt\":\"2023-01-02T03:04:05+10:00\"}}]"
    );
}

#[test]
fn special_characters_survive_the_round_trip() {
    let mut tx = bare_tx();
    tx.attributes.description = Some("say \"hi\"\\\n\ttab".to_string());
    tx.attributes.message = Some("unicode: caf\u{e9} \u{1f600}".to_string());
    let txs = vec![tx];
    let text = encode_transactions(&txs);
    assert!(text.contains("say \\\"hi\\\"\\\\\\u000a\\u0009tab"));
    let parsed = parse_transactions(&text).expect("escaped snapshot should load back");
    assert_eq!(parsed, txs);
}

#[test]
fn malformed_snapshots_are_rejected() {
    assert!(parse_transactions("").is_none());
    assert!(parse_transactions("[").is_none());
    assert!(parse_transactions("[{}]").is_none());
    assert!(parse_transactions("[]x").is_none());
    assert!(parse_transactions("{\"data\":[]}").is_none());
}

#[test]
fn accounts_round_trip_field_for_field() {
    let resp = ApiResponse { data: vec![account(12345), account(-987)] };
    let text = encode_api_response(&resp);
    let parsed = parse_api_response(&text).expect("account snapshot should load back");
    assert_eq!(parsed, resp);
}

#[test]
fn one_account_encodes_exactly() {
    let resp = ApiResponse { data: vec![account(12345)] };
    let text = encode_api_response(&resp);
    assert_eq!(
        text,
        "{\"data\":[{\"id\":\"acc-001\",\"attributes\":{\"displayName\":\"Spending\",\
         \"accountType\":\"TRANSACTIONAL\",\"ownershipType\":\"INDIVIDUAL\",\
         \"balance\":{\"currencyCode\":\"AUD\",\"value\":\"123.45\",\
         \"valueInBaseUnits\":12345},\"createdAt\":\"2023-01-01\"}}]}"
    );
}

#[test]
fn empty_account_listing_round_trips() {
    let resp = ApiResponse { data: Vec::new() };
    let text = encode_api_response(&resp);
    assert_eq!(text, "{\"data\":[]}");
    let parsed = parse_api_response(&text).expect("empty listing should load back");
    assert!(parsed.data.is_empty());
}

#[test]
fn extreme_balances_round_trip() {
    let resp = ApiResponse { data: vec![account(i32::MIN), account(0), account(i32::MAX)] };
    let text = encode_api_response(&resp);
    assert!(text.contains("\"valueInBaseUnits\":-2147483648"));
    assert!(text.contains("\"valueInBaseUnits\":0"));
    assert!(text.contains("\"valueInBaseUnits\":2147483647"));
    let parsed = parse_api_response(&text).expect("extreme values should load back");
    assert_eq!(parsed, resp);
}

#[test]
fn balances_out_of_range_are_rejected() {
    let good = encode_api_response(&ApiResponse { data: vec![account(12345)] });
    let too_big = good.replace(":12345}", ":2147483648}");
    assert!(parse_api_response(&too_big).is_none());
    let too_small = good.replace(":12345}", ":-2147483649}");
    assert!(parse_api_response(&too_small).is_none());
    let at_min = good.replace(":12345}", ":-2147483648}");
    let parsed = parse_api_response(&at_min).expect("the smallest value still fits");
    assert_eq!(parsed.data[0].attributes.balance.value_in_base_units, i32::MIN);
}

#[test]
fn page_with_next_link_round_trips() {
    let page = DataStruct {
        data: vec![full_tx()],
        links: Links { next: Some("https://example.invalid/page2".to_string()) },
    };
    let text = encode_page(&page);
    let parsed = parse_page(&text).expect("page should load back");
    assert_eq!(parsed, page);
}

#[test]
fn last_page_encodes_an_absent_link() {
    let page = DataStruct { data: Vec::new(), links: Links { next: None } };
    let text = encode_page(&page);
    assert_eq!(text, "{\"data\":[],\"links\":{\"next\":null}}");
    let parsed = parse_page(&text).expect("last page should load back");
    assert!(parsed.links.next.is_none());
}

#[test]
fn viewer_shows_fields_of_a_loaded_snapshot() {
    let resp = ApiResponse { data: vec![account(12345)] };
    let text = encode_api_response(&resp);
    let loaded = parse_api_response(&text).expect("snapshot should load back");
    let app = App::default().with_api_response(loaded);
    assert_eq!(app.first_display_name(), "Spending");
    assert_eq!(app.first_account_id(), "acc-001");
    assert_eq!(app.first_balance_value(), "123.45");
}
