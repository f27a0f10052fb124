//! The static endpoints, route placeholders, and request/response
//! payload types.

use kapitalist::api::index;
use kapitalist::request::{
    CategoryCreationRequest, TokenRequest, TransactionCreationRequest, UserCreationRequest,
    UserUpdateRequest, WalletCreationRequest,
};
use kapitalist::response::{ErrorResponse, TokenResponse};
use kapitalist::{transaction, wallet};

#[test]
fn index_reports_running() {
    assert_eq!(index(), "kapitalist v0.1.0 is running");
}

#[test]
fn wallet_routes() {
    assert_eq!(wallet::post(), "POST /wallet");
    assert_eq!(wallet::get(7), "GET /wallet/7");
    assert_eq!(wallet::put(12345), "PUT /wallet/12345");
    assert_eq!(wallet::tx_get_all(3), "GET /wallet/3/transactions");
    assert_eq!(wallet::tx_post(3), "POST /wallet/3/transaction");
    assert_eq!(wallet::tx_get(1, 2), "POST /wallet/1/transaction/2");
    assert_eq!(wallet::tx_put(1, 2), "PUT /wallet/1/transaction/2");
}

#[test]
fn transaction_routes() {
    assert_eq!(transaction::post(), "POST /transaction");
    assert_eq!(transaction::get(8), "GET /transaction/8");
    assert_eq!(transaction::put(-3), "PUT /transaction/-3");
}

#[test]
fn error_responses() {
    assert_eq!(ErrorResponse::new("nope").error, "nope");
    assert_eq!(ErrorResponse::server_error().error, "Internal server error");
    assert_eq!(ErrorResponse::not_implemented().error, "Not implemented yet");
}

#[test]
fn token_response_carries_token() {
    let r = TokenResponse { token: "abc".to_string() };
    assert_eq!(r.token, "abc");
}

#[test]
fn update_request_validity() {
    let empty = UserUpdateRequest { email: None, password: None, name: None };
    assert!(!empty.is_valid());
    let with_name = UserUpdateRequest {
        email: None,
        password: None,
        name: Some("carol".to_string()),
    };
    assert!(with_name.is_valid());
    let with_email = UserUpdateRequest {
        email: Some("c@example.org".to_string()),
        password: None,
        name: None,
    };
    assert!(with_email.is_valid());
}

#[test]
fn request_payloads_carry_fields() {
    let reg = UserCreationRequest {
        email: "c@example.org".to_string(),
        password: "hunter2".to_string(),
        name: None,
    };
    assert_eq!(reg.email, "c@example.org");
    let tok = TokenRequest {
        email: "c@example.org".to_string(),
        password: "hunter2".to_string(),
    };
    assert_eq!(tok.password, "hunter2");
    let w = WalletCreationRequest {
        name: "cash".to_string(),
        wallet_type: "default".to_string(),
        balance: 150,
        color: "#ff0000".to_string(),
    };
    assert_eq!(w.balance, 150);
    let c = CategoryCreationRequest {
        name: "food".to_string(),
        parent_id: Some(1),
        color: "#00ff00".to_string(),
    };
    assert_eq!(c.parent_id, Some(1));
    let t = TransactionCreationRequest {
        wallet_id: 1,
        category_id: 2,
        amount: -50,
        ts: 1_700_000_000,
    };
    assert_eq!(t.amount, -50);
}
