//! Request payloads the API accepts from clients.

use vstd::prelude::*;

verus! {

/// Payload of `POST /register`: create a new user account.
#[derive(Debug)]
pub struct UserCreationRequest {
    pub email: String,
    pub password: String,
    pub name: Option<String>,
}

/// Payload of `PUT /me`: update fields of one's own account.
#[derive(Debug)]
pub struct UserUpdateRequest {
    pub email: Option<String>,
    pub password: Option<String>,
    pub name: Option<String>,
}

impl UserUpdateRequest {
    /// Whether the update carries at least one field to change; an
    /// empty update is refused by the endpoint.
    pub fn is_valid(&self) -> (r: bool)
        ensures
            r == (self.email is Some || self.password is Some || self.name is Some),
    {
        self.email.is_some() || self.password.is_some() || self.name.is_some()
    }
}

/// Payload of `POST /token`: obtain an authentication token with
/// email and password.
#[derive(Debug)]
pub struct TokenRequest {
    pub email: String,
    pub password: String,
}

/// Payload of `POST /wallet`: create a new wallet.
#[derive(Debug)]
pub struct WalletCreationRequest {
    pub name: String,
    pub wallet_type: String,
    pub balance: i32,
    pub color: String,
}

/// Payload of `POST /category`: create a new category.
#[derive(Debug)]
pub struct CategoryCreationRequest {
    pub name: String,
    pub parent_id: Option<i32>,
    pub color: String,
}

/// Payload of `POST /transaction`: create a new transaction, with its
/// timestamp in seconds since the epoch.
#[derive(Debug)]
pub struct TransactionCreationRequest {
    pub wallet_id: i32,
    pub category_id: i32,
    pub amount: i32,
    pub ts: i64,
}

} // verus!
