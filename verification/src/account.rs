use vstd::prelude::*;
use vstd::hash_map::StringHashMap;
use vstd::utf8::encode_utf8;
use crate::message::{AccountCreationResult, AccountLoginResult};
use crate::password::{
    argon2_phc_string, char_is_alphanumeric, generate_salt, salt_text_of_16_bytes, hash_password, is_alphanumeric, parse_phc_hash,
    password_matches, phc_hash_is_valid, verify_password,
};

verus! {

/// A registered account: the PHC string of its password's hash.
pub struct User {
    pub hashed_password: String,
}

/// The accounts that the server knows, by user name.
pub struct ServerData {
    users: StringHashMap<User>,
}

/// Limits on the length of user names and passwords, in bytes of UTF-8.
#[derive(Clone, Copy, Debug)]
pub struct AccountRequirements {
    pub password_min_length: usize,
    pub password_max_length: usize,
    pub username_min_length: usize,
    pub username_max_length: usize,
}

/// How the server runs: its port and its account rules.
#[derive(Clone, Copy, Debug)]
pub struct ServerConfig {
    pub port: u32,
    pub account_requirements: AccountRequirements,
}

/// A connected client.
pub struct Client {
    pub username: String,
}

impl View for ServerData {
    /// The stored password hash of each user name.
    type V = Map<Seq<char>, Seq<char>>;

    closed spec fn view(&self) -> Map<Seq<char>, Seq<char>> {
        self.users@.map_values(|u: User| u.hashed_password@)
    }
}

impl ServerData {
    /// No accounts.
    pub fn new() -> (data: ServerData)
        ensures
            data@ == Map::<Seq<char>, Seq<char>>::empty(),
    {
        let data = ServerData { users: StringHashMap::new() };
        assert(data@ =~= Map::<Seq<char>, Seq<char>>::empty());
        data
    }

    /// Stores `user` under `username`, replacing any account of that name.
    pub fn insert_user(&mut self, username: String, user: User)
        ensures
            final(self)@ == old(self)@.insert(username@, user.hashed_password@),
    {
        let ghost h = user.hashed_password@;
        self.users.insert(username, user);
        assert(self@ =~= old(self)@.insert(username@, h));
    }

    /// The stored hash of `username`, if the account exists.
    pub fn stored_hash(&self, username: &str) -> (h: Option<&str>)
        ensures
            match h {
                Some(s) => self@.contains_key(username@) && s@ == self@[username@],
                None => !self@.contains_key(username@),
            },
    {
        match self.users.get(username) {
            Some(user) => Some(user.hashed_password.as_str()),
            None => None,
        }
    }
}

impl Default for ServerData {
    fn default() -> (data: ServerData)
        ensures
            data@ == Map::<Seq<char>, Seq<char>>::empty(),
    {
        ServerData::new()
    }
}

impl ServerConfig {
    /// The configuration the server runs with: port 13654, passwords of 5
    /// to 52 bytes, user names of 3 to 14 bytes.
    pub fn standard() -> (config: ServerConfig)
        ensures
            config.port == 13654,
            config.account_requirements.password_max_length == 52,
            config.account_requirements.password_min_length == 5,
            config.account_requirements.username_min_length == 3,
            config.account_requirements.username_max_length == 14,
    {
        ServerConfig {
            port: 13654,
            account_requirements: AccountRequirements {
                password_max_length: 52,
                password_min_length: 5,
                username_min_length: 3,
                username_max_length: 14,
            },
        }
    }
}

/// Whether an account named `username` exists.
pub fn does_user_exist(server_data: &ServerData, username: &str) -> (exists: bool)
    ensures
        exists == server_data@.contains_key(username@),
{
    server_data.stored_hash(username).is_some()
}

/// An ASCII control character: U+0000 to U+001F, or U+007F.
pub open spec fn ascii_control(c: char) -> bool {
    c as u32 <= 0x1f || c as u32 == 0x7f
}

/// Whether `c` is an ASCII control character.
pub fn is_ascii_control(c: char) -> (r: bool)
    ensures
        r == ascii_control(c),
{
    (c as u32) <= 0x1f || (c as u32) == 0x7f
}

/// Every character of the user name is alphanumeric or `_`.
pub open spec fn username_chars_ok(username: Seq<char>) -> bool {
    forall|i: int|
        0 <= i < username.len() ==> #[trigger] char_is_alphanumeric(username[i]) || username[i]
            == '_'
}

/// Some character of the password is an ASCII control character.
pub open spec fn password_has_control(password: Seq<char>) -> bool {
    exists|i: int| 0 <= i < password.len() && #[trigger] ascii_control(password[i])
}

/// Length of a text in bytes of UTF-8, as `str::len` reports it.
pub open spec fn byte_len(s: Seq<char>) -> usize {
    encode_utf8(s).len() as usize
}

/// The verdict on a registration before any hashing: the first rule that
/// the user name and password break, in this order, or `OK`.
pub open spec fn registration_verdict(
    req: AccountRequirements,
    username: Seq<char>,
    password: Seq<char>,
) -> AccountCreationResult {
    if !username_chars_ok(username) {
        AccountCreationResult::InvalidUsername
    } else if !password_has_control(password) {
        AccountCreationResult::InvalidPassword
    } else if byte_len(username) > req.username_max_length {
        AccountCreationResult::UsernameTooLong
    } else if byte_len(username) < req.username_min_length {
        AccountCreationResult::UsernameTooShort
    } else if byte_len(password) > req.password_max_length {
        AccountCreationResult::PasswordTooLong
    } else if byte_len(password) < req.password_min_length {
        AccountCreationResult::PasswordTooShort
    } else {
        AccountCreationResult::OK
    }
}

fn username_chars_valid(username: &str) -> (ok: bool)
    ensures
        ok == username_chars_ok(username@),
{
    let mut ok = true;
    for c in it: username.chars()
        invariant
            it.seq() == username@,
            ok == (forall|i: int|
                0 <= i < it.index() ==> #[trigger] char_is_alphanumeric(username@[i])
                    || username@[i] == '_'),
    {
        let good = is_alphanumeric(c) || c == '_';
        ok = ok && good;
    }
    ok
}

fn password_has_control_char(password: &str) -> (found: bool)
    ensures
        found == password_has_control(password@),
{
    let mut found = false;
    for c in it: password.chars()
        invariant
            it.seq() == password@,
            found == (exists|i: int| 0 <= i < it.index() && #[trigger] ascii_control(password@[i])),
    {
        if is_ascii_control(c) {
            found = true;
        }
    }
    found
}

/// Checks a registration against the account rules of `server_config`,
/// before any hashing.
pub fn check_registration(server_config: &ServerConfig, username: &str, password: &str) -> (verdict: AccountCreationResult)
    ensures
        verdict == registration_verdict(server_config.account_requirements, username@, password@),
{
    let req = &server_config.account_requirements;
    if !username_chars_valid(username) {
        return AccountCreationResult::InvalidUsername;
    }
    if !password_has_control_char(password) {
        return AccountCreationResult::InvalidPassword;
    }
    if username.len() > req.username_max_length {
        return AccountCreationResult::UsernameTooLong;
    }
    if username.len() < req.username_min_length {
        return AccountCreationResult::UsernameTooShort;
    }
    if password.len() > req.password_max_length {
        return AccountCreationResult::PasswordTooLong;
    }
    if password.len() < req.password_min_length {
        return AccountCreationResult::PasswordTooShort;
    }
    AccountCreationResult::OK
}

/// Stores the outcome of hashing an accepted registration: the account
/// `username` with the hash `hashed`, or, where hashing failed, nothing.
pub fn complete_registration(server_data: &mut ServerData, username: String, hashed: Option<String>) -> (result: AccountCreationResult)
    ensures
        match hashed {
            Some(h) => result == AccountCreationResult::OK && final(server_data)@ == old(
                server_data,
            )@.insert(username@, h@),
            None => result == AccountCreationResult::UnknownError && final(server_data)@ == old(
                server_data,
            )@,
        },
{
    match hashed {
        Some(h) => {
            server_data.insert_user(username, User { hashed_password: h });
            AccountCreationResult::OK
        },
        None => AccountCreationResult::UnknownError,
    }
}

/// What a registration of `username` with `password` does: where a rule
/// is broken, its verdict comes back and nothing changes; a password of
/// more than `0xFFFF_FFFF` bytes cannot be hashed (`UnknownError`, nothing
/// changes); otherwise the answer is `OK` and the account is stored with the
/// default Argon2 PHC string of the password with a salt of 16 bytes, which
/// parses and accepts the password.
pub open spec fn registration_effect(
    req: AccountRequirements,
    before: Map<Seq<char>, Seq<char>>,
    after: Map<Seq<char>, Seq<char>>,
    username: Seq<char>,
    password: Seq<char>,
    result: AccountCreationResult,
) -> bool {
    let verdict = registration_verdict(req, username, password);
    if verdict != AccountCreationResult::OK {
        result == verdict && after == before
    } else if encode_utf8(password).len() > 0xFFFF_FFFF {
        result == AccountCreationResult::UnknownError && after == before
    } else {
        result == AccountCreationResult::OK && exists|salt: Seq<char>, h: Seq<char>|
            #![trigger argon2_phc_string(password, salt), phc_hash_is_valid(h)]
            salt_text_of_16_bytes(salt) && argon2_phc_string(password, salt) == Some(h)
                && phc_hash_is_valid(h) && password_matches(password, h) && after == before.insert(
                username,
                h,
            )
    }
}

/// Registers the account `username` with `password`: where a rule is
/// broken, its verdict comes back and nothing is stored; otherwise the
/// password is hashed by the default Argon2 with a fresh random salt of 16
/// bytes and the account is stored with that PHC string, which parses and
/// accepts the password, replacing any account of that name (`OK`); only a password too long for Argon2 (more than
/// `0xFFFF_FFFF` bytes) gives `UnknownError`.
pub fn register_user(
    server_data: &mut ServerData,
    server_config: &ServerConfig,
    username: String,
    password: String,
) -> (result: AccountCreationResult)
    ensures
        registration_effect(
            server_config.account_requirements,
            old(server_data)@,
            final(server_data)@,
            username@,
            password@,
            result,
        ),
{
    let verdict = check_registration(server_config, username.as_str(), password.as_str());
    if verdict != AccountCreationResult::OK {
        return verdict;
    }
    let salt = generate_salt();
    let hashed = hash_password(password.as_str(), salt.as_str());
    let ghost h = hashed;
    let ghost salt_text = salt@;
    let result = complete_registration(server_data, username, hashed);
    proof {
        if let Some(s) = h {
            assert(argon2_phc_string(password@, salt_text) == Some(s@));
            assert(phc_hash_is_valid(s@));
        }
    }
    result
}

/// The stored hash of `username`, where it exists, parses.
pub open spec fn login_ready(accounts: Map<Seq<char>, Seq<char>>, username: Seq<char>) -> bool {
    accounts.contains_key(username) ==> phc_hash_is_valid(accounts[username])
}

/// The outcome of logging in as `username` with `password`: `OK` where the
/// account exists and its hash accepts the password.
pub open spec fn login_outcome(
    accounts: Map<Seq<char>, Seq<char>>,
    username: Seq<char>,
    password: Seq<char>,
) -> AccountLoginResult {
    if accounts.contains_key(username) && password_matches(password, accounts[username]) {
        AccountLoginResult::OK
    } else {
        AccountLoginResult::IncorrectCredentials
    }
}

/// Logs in as `username` with `password`; the stored hash of an existing
/// account must parse.
pub fn login_user(server_data: &ServerData, username: String, password: String) -> (result: AccountLoginResult)
    requires
        login_ready(server_data@, username@),
    ensures
        result == login_outcome(server_data@, username@, password@),
{
    match server_data.stored_hash(username.as_str()) {
        Some(h) => {
            if verify_password(password.as_str(), h) {
                AccountLoginResult::OK
            } else {
                AccountLoginResult::IncorrectCredentials
            }
        },
        None => AccountLoginResult::IncorrectCredentials,
    }
}

/// Logs in as `username` with `password`, or returns `None` where the
/// account exists but its stored hash does not parse.
pub fn try_login_user(server_data: &ServerData, username: String, password: String) -> (result: Option<AccountLoginResult>)
    ensures
        login_ready(server_data@, username@) ==> result == Some(
            login_outcome(server_data@, username@, password@),
        ),
        !login_ready(server_data@, username@) ==> result is None,
{
    match server_data.stored_hash(username.as_str()) {
        Some(h) => {
            if !parse_phc_hash(h) {
                return None;
            }
        },
        None => {},
    }
    Some(login_user(server_data, username, password))
}

/// After a registration is stored, logging in with the same user name and
/// password succeeds.
pub proof fn lemma_registered_user_can_log_in(
    before: Map<Seq<char>, Seq<char>>,
    after: Map<Seq<char>, Seq<char>>,
    username: Seq<char>,
    password: Seq<char>,
    hash: Seq<char>,
)
    requires
        phc_hash_is_valid(hash),
        password_matches(password, hash),
        after == before.insert(username, hash),
    ensures
        login_ready(after, username),
        login_outcome(after, username, password) == AccountLoginResult::OK,
{
}

/// Storing an account leaves every other account as it was.
pub proof fn lemma_registration_keeps_others(
    before: Map<Seq<char>, Seq<char>>,
    after: Map<Seq<char>, Seq<char>>,
    username: Seq<char>,
    hash: Seq<char>,
    other: Seq<char>,
    password: Seq<char>,
)
    requires
        after == before.insert(username, hash),
        other != username,
    ensures
        after.contains_key(other) == before.contains_key(other),
        before.contains_key(other) ==> after[other] == before[other],
        login_outcome(after, other, password) == login_outcome(before, other, password),
{
}


/// A registration whose user name holds a character that is neither
/// alphanumeric nor `_` is answered `InvalidUsername`, whatever the
/// password, and stores nothing; one whose user name holds only such
/// characters is never answered `InvalidUsername`.
pub proof fn lemma_bad_username_refused(
    req: AccountRequirements,
    before: Map<Seq<char>, Seq<char>>,
    after: Map<Seq<char>, Seq<char>>,
    username: Seq<char>,
    password: Seq<char>,
    result: AccountCreationResult,
    i: int,
)
    requires
        registration_effect(req, before, after, username, password, result),
    ensures
        0 <= i < username.len() && !char_is_alphanumeric(username[i]) && username[i] != '_'
            ==> registration_verdict(req, username, password)
            == AccountCreationResult::InvalidUsername && result
            == AccountCreationResult::InvalidUsername && after == before,
        (forall|k: int| 0 <= k < username.len() ==> char_is_alphanumeric(#[trigger] username[k])
            || username[k] == '_') ==> result != AccountCreationResult::InvalidUsername,
{
}

} // verus!
