use vstd::prelude::*;

verus! {

/// The client's side of the connection to a server; it holds no state of
/// its own.
pub struct ClientNetworkManager {}

/// What a client asks of the server.
#[derive(Debug)]
pub enum ClientToServerMessage {
    /// Starts connecting as the given user name.
    ConnectionStart(String),
    RegisterAccount { username: String, password: String },
    LoginAccount { username: String, password: String },
}

/// What the server answers a client.
#[derive(Debug)]
pub enum ServerToClientMessage {
    /// The user name is unknown: the client should register it.
    ConnectionRequestRegister,
    /// The user name is known: the client should log in.
    ConnectionRequestLogin,
    AccountCreationResult(AccountCreationResult),
    AccountLoginResult(AccountLoginResult),
}

/// Outcome of a login attempt.
#[derive(Clone, Copy, Debug, PartialEq, Eq, Structural)]
pub enum AccountLoginResult {
    OK,
    IncorrectCredentials,
}

/// Outcome of a registration attempt.
#[derive(Clone, Copy, Debug, PartialEq, Eq, Structural)]
pub enum AccountCreationResult {
    OK,
    InvalidPassword,
    InvalidUsername,
    PasswordTooLong,
    PasswordTooShort,
    UsernameTooLong,
    UsernameTooShort,
    UnknownError,
    UsernameAlreadyExists,
}

} // verus!
