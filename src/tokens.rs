use vstd::prelude::*;
use crate::helper::{int_value, parse_int};
use crate::error::ResponseError;
use crate::text::{text_eq, text_of};

verus! {

/// Requests a user token may send per window.
pub const USER_MAX_REQUESTS_SENT: u8 = 10;

/// Seconds a token is kept after it was stored.
pub const INTERVAL_CLEAN_UP_TOKENS_STORAGE: u64 = 15;

/// Seconds in one rate-limit window.
pub const TOKEN_WINDOW: u64 = 61;

/// A caller's token: its rate-limit state and whether it is an admin's.
#[derive(Clone, Copy, Debug)]
pub struct Token {
    pub requests_sent: u8,
    pub max_requests_sent: u8,
    pub limited_time_to: u64,
    pub create_at: u64,
    pub is_admin: bool,
}

/// Tokens by their text, each once, in order of storing.
pub struct TokensStorage {
    tokens: Vec<(String, Token)>,
}

/// Whether a user type marks an admin: it reads as the number -1.
pub open spec fn is_admin_type(user_type: Option<Seq<char>>) -> bool {
    user_type matches Some(t) && int_value(t) == Some(-1int)
}

pub open spec fn fresh(now: int, created: int) -> bool {
    now < created || now - created <= INTERVAL_CLEAN_UP_TOKENS_STORAGE
}

impl Token {
    pub open spec fn admin(&self) -> bool {
        self.is_admin
    }

    /// A token stored at `now`: an admin's has no limit, a user's allows
    /// `USER_MAX_REQUESTS_SENT` requests until `limited_time_to`.
    pub fn new(limited_time_to: u64, user_type: Option<String>, now: u64) -> (r: Token)
        ensures
            r.admin() == is_admin_type(match user_type { Some(t) => Some(t@), None => None }),
            r.create_at == now,
            r.requests_sent == 0,
            r.admin() ==> r.max_requests_sent == 0 && r.limited_time_to == 0,
            !r.admin() ==> r.max_requests_sent == USER_MAX_REQUESTS_SENT && r.limited_time_to == limited_time_to,
    {
        let admin = match &user_type {
            Some(t) => match parse_int(t.as_str()) {
                Some(v) => v == -1,
                None => false,
            },
            None => false,
        };
        if admin {
            Token { requests_sent: 0, max_requests_sent: 0, limited_time_to: 0, create_at: now, is_admin: true }
        } else {
            Token { requests_sent: 0, max_requests_sent: USER_MAX_REQUESTS_SENT, limited_time_to, create_at: now, is_admin: false }
        }
    }

    /// Opens a new window when the current one has ended by `now`.
    pub fn update_token_info(&mut self, now: u64)
        requires
            now <= u64::MAX - TOKEN_WINDOW,
        ensures
            now >= old(self).limited_time_to ==> final(self).limited_time_to == now + TOKEN_WINDOW && final(self).requests_sent == 0,
            now < old(self).limited_time_to ==> final(self).limited_time_to == old(self).limited_time_to && final(self).requests_sent == old(self).requests_sent,
            final(self).max_requests_sent == old(self).max_requests_sent,
            final(self).create_at == old(self).create_at,
            final(self).admin() == old(self).admin(),
    {
        if now >= self.limited_time_to {
            self.limited_time_to = now + TOKEN_WINDOW;
            self.requests_sent = 0;
        }
    }

    /// Counts one request at `now`: an admin's token is never limited; a
    /// user's is admitted while it has requests left in an open window, or
    /// when its window has ended (a new window then opens); otherwise the
    /// request is refused and nothing changes.
    pub fn admit_request(&mut self, now: u64) -> (r: Result<(), ResponseError>)
        requires
            now <= u64::MAX - TOKEN_WINDOW,
        ensures
            old(self).admin() ==> r is Ok && *final(self) == *old(self),
            !old(self).admin() && old(self).requests_sent < old(self).max_requests_sent && old(self).limited_time_to > now ==> r is Ok
                && final(self).requests_sent == old(self).requests_sent + 1 && final(self).limited_time_to == old(self).limited_time_to,
            !old(self).admin() && old(self).limited_time_to <= now ==> r is Ok && final(self).requests_sent == 1
                && final(self).limited_time_to == now + TOKEN_WINDOW,
            !old(self).admin() && old(self).requests_sent >= old(self).max_requests_sent && old(self).limited_time_to > now ==> (r matches Err(e)
                && e.0 == 1854691) && *final(self) == *old(self),
            final(self).max_requests_sent == old(self).max_requests_sent,
            final(self).create_at == old(self).create_at,
            final(self).admin() == old(self).admin(),
    {
        if self.is_admin {
            return Ok(());
        }
        if self.requests_sent < self.max_requests_sent && self.limited_time_to > now {
            self.requests_sent = self.requests_sent + 1;
            Ok(())
        } else if self.limited_time_to <= now {
            self.update_token_info(now);
            self.requests_sent = 1;
            Ok(())
        } else {
            Err((1854691, text_of("Количество запросов по токену достигло предела.")))
        }
    }

    pub fn get_is_admin(&self) -> (r: bool)
        ensures
            r == self.admin(),
    {
        self.is_admin
    }
}

impl TokensStorage {
    /// The stored tokens, in order.
    pub closed spec fn entries(&self) -> Seq<(Seq<char>, Token)> {
        self.tokens@.map_values(|e: (String, Token)| (e.0@, e.1))
    }

    pub open spec fn has(&self, token: Seq<char>) -> bool {
        exists|i: int| 0 <= i < self.entries().len() && #[trigger] self.entries()[i].0 == token
    }

    pub fn new() -> (r: TokensStorage)
        ensures
            r.entries().len() == 0,
    {
        TokensStorage { tokens: Vec::new() }
    }

    /// The last admin token stored, if any.
    pub fn find_admin_token(&self) -> (r: Option<String>)
        ensures
            r is None <==> forall|i: int| 0 <= i < self.entries().len() ==> !(#[trigger] self.entries()[i]).1.admin(),
            r matches Some(t) ==> exists|i: int| 0 <= i < self.entries().len() && #[trigger] self.entries()[i].0 == t@
                && self.entries()[i].1.admin() && forall|j: int| i < j < self.entries().len() ==> !(#[trigger] self.entries()[j]).1.admin(),
    {
        let mut found: Option<String> = None;
        let ghost mut at: int = -1;
        let mut i: usize = 0;
        while i < self.tokens.len()
            invariant
                i <= self.tokens.len(),
                found is None <==> at == -1,
                found is None ==> forall|k: int| 0 <= k < i ==> !(#[trigger] self.entries()[k]).1.admin(),
                found matches Some(t) ==> 0 <= at < i && self.entries()[at].0 == t@ && self.entries()[at].1.admin()
                    && forall|j: int| at < j < i ==> !(#[trigger] self.entries()[j]).1.admin(),
            decreases self.tokens.len() - i,
        {
            assert(self.entries()[i as int] == (self.tokens@[i as int].0@, self.tokens@[i as int].1));
            if self.tokens[i].1.is_admin {
                found = Some(self.tokens[i].0.clone());
                proof {
                    at = i as int;
                }
            }
            i = i + 1;
        }
        found
    }

    /// Whether a token is stored.
    pub fn is_exist_token(&self, token: &String) -> (r: bool)
        ensures
            r == self.has(token@),
    {
        let mut i: usize = 0;
        while i < self.tokens.len()
            invariant
                i <= self.tokens.len(),
                forall|k: int| 0 <= k < i ==> #[trigger] self.entries()[k].0 != token@,
            decreases self.tokens.len() - i,
        {
            assert(self.entries()[i as int].0 == self.tokens@[i as int].0@);
            if text_eq(self.tokens[i].0.as_str(), token.as_str()) {
                return true;
            }
            i = i + 1;
        }
        false
    }

    /// Stores a new token at `now`, unless it is stored already; returns
    /// whether it was stored.
    pub fn set_new_token(&mut self, token: String, user_type: Option<String>, now: u64) -> (r: bool)
        requires
            now <= u64::MAX - TOKEN_WINDOW,
        ensures
            r == !old(self).has(token@),
            !r ==> final(self).entries() == old(self).entries(),
            r ==> final(self).entries().len() == old(self).entries().len() + 1
                && final(self).entries().drop_last() == old(self).entries()
                && final(self).entries().last().0 == token@
                && final(self).entries().last().1.create_at == now
                && final(self).entries().last().1.requests_sent == 0
                && final(self).entries().last().1.admin() == is_admin_type(match user_type { Some(t) => Some(t@), None => None })
                && (final(self).entries().last().1.admin() ==> final(self).entries().last().1.max_requests_sent == 0
                    && final(self).entries().last().1.limited_time_to == 0)
                && (!final(self).entries().last().1.admin() ==> final(self).entries().last().1.max_requests_sent == USER_MAX_REQUESTS_SENT
                    && final(self).entries().last().1.limited_time_to == now + TOKEN_WINDOW),
    {
        if self.is_exist_token(&token) {
            return false;
        }
        let t = Token::new(now + TOKEN_WINDOW, user_type, now);
        let ghost before = self.tokens@;
        self.tokens.push((token, t));
        assert(self.entries().drop_last() =~= before.map_values(|e: (String, Token)| (e.0@, e.1)));
        true
    }

    /// Drops the tokens stored more than the clean-up interval before `now`.
    pub fn clean_up(&mut self, now: u64)
        ensures
            final(self).entries() == old(self).entries().filter(|e: (Seq<char>, Token)| fresh(now as int, e.1.create_at as int)),
    {
        let ghost all = self.entries();
        let mut kept: Vec<(String, Token)> = Vec::new();
        let mut i: usize = 0;
        assert(all.take(0).filter(|e: (Seq<char>, Token)| fresh(now as int, e.1.create_at as int)) =~= Seq::<(Seq<char>, Token)>::empty());
        while i < self.tokens.len()
            invariant
                i <= self.tokens.len(),
                all == self.entries(),
                kept@.map_values(|e: (String, Token)| (e.0@, e.1)) == all.take(i as int).filter(|e: (Seq<char>, Token)| fresh(now as int, e.1.create_at as int)),
            decreases self.tokens.len() - i,
        {
            let ghost before = kept@;
            proof {
                assert(all.take(i + 1).drop_last() =~= all.take(i as int));
                assert(all.take(i + 1).last() == (self.tokens@[i as int].0@, self.tokens@[i as int].1));
                reveal(Seq::filter);
            }
            let created = self.tokens[i].1.create_at;
            if now < created || now - created <= INTERVAL_CLEAN_UP_TOKENS_STORAGE {
                kept.push((self.tokens[i].0.clone(), self.tokens[i].1));
                assert(kept@.map_values(|e: (String, Token)| (e.0@, e.1)) =~= before.map_values(|e: (String, Token)| (e.0@, e.1)).push((self.tokens@[i as int].0@, self.tokens@[i as int].1)));
            }
            i = i + 1;
        }
        assert(all.take(self.tokens.len() as int) =~= all);
        self.tokens = kept;
    }
}

} // verus!
