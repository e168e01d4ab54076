use up_bank_cli::config::{require_token, ConfigError};
use up_bank_cli::model::{Account, AccountAttributes, ApiResponse, Balance};
use up_bank_cli::ui::{tab_labels, tab_static_text, App, KeyInput};

fn sample_account() -> Account {
    Account {
        account_id: "acc-001".to_string(),
        attributes: AccountAttributes {
            display_name: "Spending".to_string(),
            account_type: "TRANSACTIONAL".to_string(),
            ownership_type: "INDIVIDUAL".to_string(),
            balance: Balance {
                currency_code: "AUD".to_string(),
                value: "123.45".to_string(),
                value_in_base_units: 12345,
            },
            created_at: "2023-01-01T00:00:00+10:00".to_string(),
        },
    }
}

#[test]
fn default_state_starts_on_first_tab() {
    let app = App::default();
    assert_eq!(app.counter, 0);
    assert_eq!(app.tab_index, 0);
    assert!(!app.exit);
    assert!(app.api_response.is_none());
}

#[test]
fn prev_tab_wraps_from_zero() {
    let mut app = App::default();
    assert_eq!(app.tab_index, 0);
    app.prev_tab();
    assert_eq!(app.tab_index, 3);
}

#[test]
fn next_tab_wraps_from_three() {
    let mut app = App::default();
    app.tab_index = 3;
    app.next_tab();
    assert_eq!(app.tab_index, 0);
}

#[test]
fn tab_cycle_goes_through_all_four() {
    let mut app = App::default();
    app.next_tab();
    assert_eq!(app.tab_index, 1);
    app.next_tab();
    assert_eq!(app.tab_index, 2);
    app.next_tab();
    assert_eq!(app.tab_index, 3);
    app.next_tab();
    assert_eq!(app.tab_index, 0);
    app.prev_tab();
    assert_eq!(app.tab_index, 3);
    app.prev_tab();
    assert_eq!(app.tab_index, 2);
}

#[test]
fn counter_moves_by_five_and_one() {
    let mut app = App::default();
    app.increment_counter();
    assert_eq!(app.counter, 5);
    app.increment_counter();
    assert_eq!(app.counter, 10);
    app.decrement_counter();
    assert_eq!(app.counter, 9);
}

#[test]
fn counter_wraps_at_both_ends() {
    let mut app = App::default();
    app.counter = 254;
    app.increment_counter();
    assert_eq!(app.counter, 3);
    let mut app = App::default();
    assert_eq!(app.counter, 0);
    app.decrement_counter();
    assert_eq!(app.counter, 255);
}

#[test]
fn quit_key_sets_exit_flag() {
    let mut app = App::default();
    app.handle_key_event(KeyInput::Quit);
    assert!(app.exit);
    assert_eq!(app.tab_index, 0);
    assert_eq!(app.counter, 0);
}

#[test]
fn key_events_drive_every_transition() {
    let mut app = App::default();
    app.handle_key_event(KeyInput::Right);
    assert_eq!(app.counter, 5);
    app.handle_key_event(KeyInput::Left);
    assert_eq!(app.counter, 4);
    app.handle_key_event(KeyInput::NextTab);
    assert_eq!(app.tab_index, 1);
    app.handle_key_event(KeyInput::PrevTab);
    assert_eq!(app.tab_index, 0);
    app.handle_key_event(KeyInput::PrevTab);
    assert_eq!(app.tab_index, 3);
    assert!(!app.exit);
}

#[test]
fn unrecognized_key_changes_nothing() {
    let mut app = App::default();
    app.handle_key_event(KeyInput::Other);
    assert_eq!(app.counter, 0);
    assert_eq!(app.tab_index, 0);
    assert!(!app.exit);
}

#[test]
fn placeholders_without_any_data() {
    let app = App::default();
    assert_eq!(app.first_display_name(), "N/A");
    assert_eq!(app.first_account_id(), "N/A");
    assert_eq!(app.first_balance_value(), "N/A");
}

#[test]
fn placeholders_with_empty_account_list() {
    let app = App::default().with_api_response(ApiResponse { data: Vec::new() });
    assert_eq!(app.first_display_name(), "N/A");
    assert_eq!(app.first_account_id(), "N/A");
    assert_eq!(app.first_balance_value(), "N/A");
}

#[test]
fn first_account_fields_come_from_loaded_data() {
    let app = App::default().with_api_response(ApiResponse { data: vec![sample_account()] });
    assert_eq!(app.first_display_name(), "Spending");
    assert_eq!(app.first_account_id(), "acc-001");
    assert_eq!(app.first_balance_value(), "123.45");
}

#[test]
fn with_api_response_keeps_the_rest_of_the_state() {
    let mut app = App::default();
    app.next_tab();
    app.increment_counter();
    let app = app.with_api_response(ApiResponse { data: Vec::new() });
    assert_eq!(app.tab_index, 1);
    assert_eq!(app.counter, 5);
    assert!(app.api_response.is_some());
}

#[test]
fn tab_labels_are_fixed() {
    let labels = tab_labels();
    assert_eq!(
        labels,
        vec!["Spending Accounts", "Savings Accounts", "Investments", "Trends? Search?"]
    );
}

#[test]
fn static_tab_bodies_are_fixed() {
    assert_eq!(tab_static_text(1), "NAME: {} \n ACCOUNT:{} \n BALANCE:{} \n ");
    assert_eq!(tab_static_text(2), "Settings Tab: Adjust settings here.");
    assert_eq!(
        tab_static_text(3),
        "Spending trends graphed or a transactions search algorithm?"
    );
}

#[test]
fn missing_token_aborts_startup() {
    let r = require_token(None);
    assert_eq!(r, Err(ConfigError::MissingToken));
    assert_eq!(
        ConfigError::MissingToken.message(),
        "UP_API_TOKEN not set in environment variables"
    );
}

#[test]
fn present_token_is_handed_back() {
    let r = require_token(Some("SECRET-REDACTED".to_string()));
    assert_eq!(r, Ok("SECRET-REDACTED".to_string()));
}
