use up_bank_cli::fetch::{accumulate_pages, page_step, should_continue};
use up_bank_cli::model::{DataStruct, Links, TransactionAttributes, Transactions};

fn tx(desc: &str) -> Transactions {
    Transactions {
        attributes: TransactionAttributes {
            description: Some(desc.to_string()),
            message: None,
            round_up: None,
            amount: None,
            performing_customer: None,
            settled_at: None,
        },
    }
}

fn page(descs: &[&str], next: Option<&str>) -> DataStruct {
    DataStruct {
        data: descs.iter().map(|d| tx(d)).collect(),
        links: Links { next: next.map(|n| n.to_string()) },
    }
}

#[test]
fn accumulates_every_page_in_order() {
    let pages = vec![
        page(&["a", "b"], Some("page2")),
        page(&[], Some("page3")),
        page(&["c", "d", "e"], None),
    ];
    let all = accumulate_pages(pages);
    assert_eq!(all.len(), 5);
    let descs: Vec<String> = all
        .iter()
        .map(|t| t.attributes.description.clone().unwrap())
        .collect();
    assert_eq!(descs, vec!["a", "b", "c", "d", "e"]);
}

#[test]
fn accumulating_no_pages_yields_nothing() {
    let all = accumulate_pages(Vec::new());
    assert!(all.is_empty());
}

#[test]
fn page_step_appends_and_follows_the_link() {
    let mut acc = vec![tx("old")];
    let next = page_step(&mut acc, page(&["new1", "new2"], Some("https://example.invalid/page2")));
    assert_eq!(acc.len(), 3);
    assert_eq!(acc[0].attributes.description.as_deref(), Some("old"));
    assert_eq!(acc[2].attributes.description.as_deref(), Some("new2"));
    assert_eq!(next, "https://example.invalid/page2");
    assert!(should_continue(&next));
}

#[test]
fn absent_link_ends_the_loop() {
    let mut acc = Vec::new();
    let next = page_step(&mut acc, page(&["only"], None));
    assert_eq!(acc.len(), 1);
    assert_eq!(next, "");
    assert!(!should_continue(&next));
}

#[test]
fn empty_link_also_ends_the_loop() {
    let mut acc = Vec::new();
    let next = page_step(&mut acc, page(&[], Some("")));
    assert!(acc.is_empty());
    assert_eq!(next, "");
    assert!(!should_continue(&next));
}
