//! Player accounts: who is asking (from the `Authorization` header), the
//! account a new player starts with, and what the data endpoint answers.
use vstd::prelude::*;
use crate::amount::{Amount, whole};

verus! {

/// The balance a new player starts with, `dec!(1000)`.
pub const STARTING_BALANCE: u32 = 1000;

/// Why a request carries no usable player identity.
#[derive(Debug, Clone, Copy, PartialEq, Eq, Structural)]
pub enum AuthError {
    /// No `Authorization` header (or one that is not visible ASCII).
    MissingHeader,
    /// The header does not start with `Bearer `.
    InvalidFormat,
}

impl AuthError {
    /// The message the API answers with.
    pub fn message(&self) -> (text: &'static str)
        ensures
            *self == AuthError::MissingHeader ==> text@ == "Missing Authorization header"@,
            *self == AuthError::InvalidFormat ==> text@
                == "Invalid Authorization format, expected: Bearer <token>"@,
    {
        match self {
            AuthError::MissingHeader => "Missing Authorization header",
            AuthError::InvalidFormat => "Invalid Authorization format, expected: Bearer <token>",
        }
    }
}

/// `s` starts with `prefix`.
pub open spec fn starts_with(s: Seq<char>, prefix: Seq<char>) -> bool {
    prefix.len() <= s.len() && s.subrange(0, prefix.len() as int) == prefix
}

/// The scheme that precedes the token.
pub open spec fn bearer_prefix() -> Seq<char> {
    "Bearer "@
}

/// `s` with `prefix` removed from its front, `None` when `s` does not
/// start with `prefix` (what `str::strip_prefix` does with a string
/// pattern).
pub fn strip_prefix<'a>(s: &'a str, prefix: &str) -> (rest: Option<&'a str>)
    ensures
        match rest {
            Some(t) => s@ == prefix@ + t@,
            None => !starts_with(s@, prefix@),
        },
{
    let plen = prefix.unicode_len();
    let slen = s.unicode_len();
    if slen < plen {
        return None;
    }
    let mut i: usize = 0;
    while i < plen
        invariant
            plen == prefix@.len(),
            slen == s@.len(),
            plen <= slen,
            i <= plen,
            forall|j: int| 0 <= j < i ==> s@[j] == prefix@[j],
        decreases plen - i,
    {
        if s.get_char(i) != prefix.get_char(i) {
            assert(s@.subrange(0, plen as int)[i as int] != prefix@[i as int]);
            return None;
        }
        i = i + 1;
    }
    let rest = s.substring_char(plen, slen);
    assert(s@ =~= prefix@ + rest@);
    Some(rest)
}

/// The player token of a request from its `Authorization` header (as text,
/// `None` when absent): the text after `Bearer `.
pub fn bearer_token(header: Option<&str>) -> (token: Result<String, AuthError>)
    ensures
        match header {
            None => token == Err::<String, AuthError>(AuthError::MissingHeader),
            Some(h) => if starts_with(h@, bearer_prefix()) {
                token matches Ok(t) && t@ == h@.skip(bearer_prefix().len() as int)
            } else {
                token == Err::<String, AuthError>(AuthError::InvalidFormat)
            },
        },
{
    match header {
        None => Err(AuthError::MissingHeader),
        Some(h) => {
            let prefix = "Bearer ";
            assert(prefix@ == bearer_prefix());
            match strip_prefix(h, prefix) {
                Some(rest) => {
                    proof {
                        assert(h@.subrange(0, prefix@.len() as int) =~= prefix@);
                        assert(h@.skip(prefix@.len() as int) =~= rest@);
                    }
                    Ok(rest.to_owned())
                },
                None => Err(AuthError::InvalidFormat),
            }
        },
    }
}

/// A player account. `id` is the hexadecimal database identifier, absent
/// until the account is stored.
#[derive(Debug)]
pub struct User {
    pub id: Option<String>,
    pub external_id: String,
    pub balance: Amount,
    pub free_spins_left: i32,
    pub is_bonus_active: bool,
    pub bonus_game: bool,
}

/// The account a new player with token `external_id` gets: not yet stored,
/// a balance of 1000, no free spins, no bonus.
pub open spec fn new_account(external_id: String) -> User {
    User {
        id: None,
        external_id,
        balance: whole(STARTING_BALANCE as int),
        free_spins_left: 0,
        is_bonus_active: false,
        bonus_game: false,
    }
}

/// What to do with a lookup by token: use the stored account, or register
/// a new one.
#[derive(Debug)]
pub enum AccountLookup {
    Existing(User),
    Register(User),
}

/// The account for `token` given what the lookup found.
pub fn resolve_account(token: String, found: Option<User>) -> (lookup: AccountLookup)
    ensures
        match found {
            Some(u) => lookup == AccountLookup::Existing(u),
            None => lookup == AccountLookup::Register(new_account(token)),
        },
{
    match found {
        Some(u) => AccountLookup::Existing(u),
        None => AccountLookup::Register(User {
            id: None,
            external_id: token,
            balance: Amount { mantissa: STARTING_BALANCE as i128, scale: 0 },
            free_spins_left: 0,
            is_bonus_active: false,
            bonus_game: false,
        }),
    }
}

/// A registered account: the new account with the identifier the database
/// gave it.
pub fn registered(user: User, id: String) -> (stored: User)
    ensures
        stored == (User { id: Some(id), ..user }),
{
    User { id: Some(id), ..user }
}

/// What the data endpoint answers about a player.
#[derive(Debug)]
pub struct UserDataResponse {
    pub id: String,
    pub balance: Amount,
    pub bonus_game: bool,
}

/// The answer for `user`; `fallback_id` stands for the identifier when the
/// account has none.
pub fn user_data_response(user: &User, fallback_id: String) -> (response: UserDataResponse)
    ensures
        response.id == (match user.id {
            Some(id) => id,
            None => fallback_id,
        }),
        response.balance == user.balance,
        response.bonus_game == user.bonus_game,
{
    let id = match &user.id {
        Some(id) => id.clone(),
        None => fallback_id,
    };
    UserDataResponse { id, balance: user.balance, bonus_game: user.bonus_game }
}

} // verus!
