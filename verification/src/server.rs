use vstd::prelude::*;
use vstd::utf8::encode_utf8;
use crate::account::{
    registration_verdict, ServerConfig, ServerData, does_user_exist, login_outcome, login_ready, register_user,
    registration_effect,
};
use crate::message::{
    AccountCreationResult, AccountLoginResult, ClientToServerMessage, ServerToClientMessage,
};

verus! {

/// What handling `message` does to the accounts (`before` to `after`) and
/// which reply it gives: a connection start is told to log in or to
/// register, a registration of a taken name is refused with
/// `UsernameAlreadyExists`, any other registration goes through
/// `register_user`, and a login is answered with its outcome, with no reply
/// where the stored hash of the account does not parse.
pub open spec fn message_effect(
    config: ServerConfig,
    before: Map<Seq<char>, Seq<char>>,
    message: ClientToServerMessage,
    after: Map<Seq<char>, Seq<char>>,
    reply: Option<ServerToClientMessage>,
) -> bool {
    match message {
        ClientToServerMessage::ConnectionStart(username) => {
            &&& after == before
            &&& reply == Some(
                if before.contains_key(username@) {
                    ServerToClientMessage::ConnectionRequestLogin
                } else {
                    ServerToClientMessage::ConnectionRequestRegister
                },
            )
        },
        ClientToServerMessage::RegisterAccount { username, password } => {
            if before.contains_key(username@) {
                &&& after == before
                &&& reply == Some(
                    ServerToClientMessage::AccountCreationResult(
                        AccountCreationResult::UsernameAlreadyExists,
                    ),
                )
            } else {
                exists|r: AccountCreationResult|
                    #![trigger registration_effect(config.account_requirements, before, after, username@, password@, r)]
                    reply == Some(ServerToClientMessage::AccountCreationResult(r))
                        && registration_effect(
                        config.account_requirements,
                        before,
                        after,
                        username@,
                        password@,
                        r,
                    )
            }
        },
        ClientToServerMessage::LoginAccount { username, password } => {
            &&& after == before
            &&& if login_ready(before, username@) {
                reply == Some(
                    ServerToClientMessage::AccountLoginResult(
                        login_outcome(before, username@, password@),
                    ),
                )
            } else {
                reply is None
            }
        },
    }
}

/// Handles one message of a client and returns the reply to send; `None`
/// where a login meets an account whose stored hash does not parse, on
/// which the server cannot go on.
pub fn process_message(
    server_data: &mut ServerData,
    server_config: &ServerConfig,
    message: ClientToServerMessage,
) -> (reply: Option<ServerToClientMessage>)
    ensures
        message_effect(*server_config, old(server_data)@, message, final(server_data)@, reply),
{
    match message {
        ClientToServerMessage::ConnectionStart(username) => {
            if does_user_exist(server_data, username.as_str()) {
                Some(ServerToClientMessage::ConnectionRequestLogin)
            } else {
                Some(ServerToClientMessage::ConnectionRequestRegister)
            }
        },
        ClientToServerMessage::RegisterAccount { username, password } => {
            if does_user_exist(server_data, username.as_str()) {
                Some(
                    ServerToClientMessage::AccountCreationResult(
                        AccountCreationResult::UsernameAlreadyExists,
                    ),
                )
            } else {
                let ghost u = username@;
                let ghost p = password@;
                let r = register_user(server_data, server_config, username, password);
                assert(registration_effect(
                    server_config.account_requirements,
                    old(server_data)@,
                    server_data@,
                    u,
                    p,
                    r,
                ));
                Some(ServerToClientMessage::AccountCreationResult(r))
            }
        },
        ClientToServerMessage::LoginAccount { username, password } => {
            match crate::account::try_login_user(server_data, username, password) {
                Some(r) => Some(ServerToClientMessage::AccountLoginResult(r)),
                None => None,
            }
        },
    }
}

/// Handling a message never changes or removes an existing account.
pub proof fn lemma_messages_keep_existing_accounts(
    config: ServerConfig,
    before: Map<Seq<char>, Seq<char>>,
    message: ClientToServerMessage,
    after: Map<Seq<char>, Seq<char>>,
    reply: Option<ServerToClientMessage>,
    username: Seq<char>,
)
    requires
        message_effect(config, before, message, after, reply),
        before.contains_key(username),
    ensures
        after.contains_key(username),
        after[username] == before[username],
{
    match message {
        ClientToServerMessage::RegisterAccount { username: u, password: p } => {
            if !before.contains_key(u@) {
                assert(u@ != username);
            }
        },
        _ => {},
    }
}

/// Once a registration message is answered `OK`, a login message with the
/// same user name and password is answered `OK`.
pub proof fn lemma_register_then_login(
    config: ServerConfig,
    before: Map<Seq<char>, Seq<char>>,
    after: Map<Seq<char>, Seq<char>>,
    username: String,
    password: String,
    later: Map<Seq<char>, Seq<char>>,
    login_reply: Option<ServerToClientMessage>,
)
    requires
        message_effect(
            config,
            before,
            ClientToServerMessage::RegisterAccount { username, password },
            after,
            Some(ServerToClientMessage::AccountCreationResult(AccountCreationResult::OK)),
        ),
        message_effect(
            config,
            after,
            ClientToServerMessage::LoginAccount { username, password },
            later,
            login_reply,
        ),
    ensures
        login_reply == Some(ServerToClientMessage::AccountLoginResult(AccountLoginResult::OK)),
{
    assert(!before.contains_key(username@));
    let r = choose|r: AccountCreationResult|
        Some(ServerToClientMessage::AccountCreationResult(AccountCreationResult::OK)) == Some(
            ServerToClientMessage::AccountCreationResult(r),
        ) && #[trigger] registration_effect(
            config.account_requirements,
            before,
            after,
            username@,
            password@,
            r,
        );
    assert(r == AccountCreationResult::OK);
    let (salt, h) = choose|salt: Seq<char>, h: Seq<char>|
        #![trigger crate::password::argon2_phc_string(password@, salt), crate::password::phc_hash_is_valid(h)]
        crate::password::salt_text_of_16_bytes(salt) && crate::password::argon2_phc_string(
            password@,
            salt,
        ) == Some(h) && crate::password::phc_hash_is_valid(h) && crate::password::password_matches(
            password@,
            h,
        ) && after == before.insert(username@, h);
    crate::account::lemma_registered_user_can_log_in(before, after, username@, password@, h);
}


/// A registration of a new user name that breaks no rule (with a password
/// that Argon2 can hash) is answered `OK`, and a later login with the same
/// user name and password is answered `OK`.
pub proof fn lemma_accepted_registration_logs_in(
    config: ServerConfig,
    before: Map<Seq<char>, Seq<char>>,
    after: Map<Seq<char>, Seq<char>>,
    username: String,
    password: String,
    reply: Option<ServerToClientMessage>,
    later: Map<Seq<char>, Seq<char>>,
    login_reply: Option<ServerToClientMessage>,
)
    requires
        !before.contains_key(username@),
        registration_verdict(config.account_requirements, username@, password@)
            == AccountCreationResult::OK,
        encode_utf8(password@).len() <= 0xFFFF_FFFF,
        message_effect(
            config,
            before,
            ClientToServerMessage::RegisterAccount { username, password },
            after,
            reply,
        ),
        message_effect(
            config,
            after,
            ClientToServerMessage::LoginAccount { username, password },
            later,
            login_reply,
        ),
    ensures
        reply == Some(ServerToClientMessage::AccountCreationResult(AccountCreationResult::OK)),
        login_reply == Some(ServerToClientMessage::AccountLoginResult(AccountLoginResult::OK)),
{
    let r = choose|r: AccountCreationResult|
        reply == Some(ServerToClientMessage::AccountCreationResult(r)) && #[trigger] registration_effect(
            config.account_requirements,
            before,
            after,
            username@,
            password@,
            r,
        );
    assert(r == AccountCreationResult::OK);
    lemma_register_then_login(config, before, after, username, password, later, login_reply);
}

} // verus!
