use vstd::prelude::*;

use crate::clock;

verus! {

/// The mathematical value of a [`Claims`]: every string as a sequence of
/// characters, every timestamp as an unbounded integer.
pub ghost struct ClaimsView {
    pub user_id: Seq<char>,
    pub level: int,
    pub user_name: Seq<char>,
    pub company_id: Seq<char>,
    pub company_name: Seq<char>,
    pub exp: int,
    pub iat: int,
    pub scope: Option<Seq<char>>,
}

/// The identity and authorization assertion carried inside a token.
///
/// A value is immutable once constructed: the builder-style setters return
/// an updated copy.  Timestamps are stamped at construction and never taken
/// from a caller.
pub struct Claims {
    pub user_id: String,
    pub level: i32,
    pub user_name: String,
    pub company_id: String,
    pub company_name: String,
    /// Expiry time, Unix seconds; the window excludes this moment.
    pub exp: i64,
    /// Issuance time, Unix seconds; the window includes this moment.
    pub iat: i64,
    /// Free-form permission scope; left out of the serialized form when absent.
    pub scope: Option<String>,
}

impl View for Claims {
    type V = ClaimsView;

    open spec fn view(&self) -> ClaimsView {
        ClaimsView {
            user_id: self.user_id@,
            level: self.level as int,
            user_name: self.user_name@,
            company_id: self.company_id@,
            company_name: self.company_name@,
            exp: self.exp as int,
            iat: self.iat as int,
            scope: match self.scope {
                Option::Some(s) => Option::Some(s@),
                Option::None => Option::None,
            },
        }
    }
}

/// A claims value is valid at moment `now` iff `now` lies in the half-open
/// window `[iat, exp)`: inclusive on issuance, exclusive on expiry.
pub open spec fn valid_at(c: ClaimsView, now: int) -> bool {
    c.exp > now && c.iat <= now
}

/// The expiry stamped for issuance time `iat` and lifetime `ttl`: their
/// sum, held at the largest representable timestamp where the sum would
/// not fit an `i64`.
pub open spec fn exp_after(iat: int, ttl: int) -> int {
    if iat + ttl > i64::MAX as int {
        i64::MAX as int
    } else {
        iat + ttl
    }
}

/// All fields of the view fit the machine types that carry them.
pub open spec fn fits(c: ClaimsView) -> bool {
    &&& i32::MIN as int <= c.level <= i32::MAX as int
    &&& i64::MIN as int <= c.exp <= i64::MAX as int
    &&& i64::MIN as int <= c.iat <= i64::MAX as int
}

impl Claims {
    /// Builds a claims value whose issuance time is the given moment and
    /// whose expiry is `now + ttl_seconds`, saturated at `i64::MAX`.
    pub fn new_at(
        user_id: String,
        level: i32,
        user_name: String,
        company_id: String,
        company_name: String,
        ttl_seconds: u64,
        now: i64,
    ) -> (r: Claims)
        ensures
            r@ == (ClaimsView {
                user_id: user_id@,
                level: level as int,
                user_name: user_name@,
                company_id: company_id@,
                company_name: company_name@,
                exp: exp_after(now as int, ttl_seconds as int),
                iat: now as int,
                scope: Option::None,
            }),
    {
        let sum: i128 = now as i128 + ttl_seconds as i128;
        let exp: i64 = if sum > i64::MAX as i128 {
            i64::MAX
        } else {
            sum as i64
        };
        Claims {
            user_id,
            level,
            user_name,
            company_id,
            company_name,
            exp,
            iat: now,
            scope: Option::None,
        }
    }

    /// Stamps `iat` with the present moment and `exp` with `iat +
    /// ttl_seconds` (saturated at `i64::MAX`); `scope` starts absent.  The
    /// clock is read here, so only the relation between the stamps can be
    /// promised, not their values.
    pub fn new(
        user_id: String,
        level: i32,
        user_name: String,
        company_id: String,
        company_name: String,
        ttl_seconds: u64,
    ) -> (r: Claims)
        ensures
            r@.user_id == user_id@,
            r@.level == level as int,
            r@.user_name == user_name@,
            r@.company_id == company_id@,
            r@.company_name == company_name@,
            r@.scope is None,
            r@.exp == exp_after(r@.iat, ttl_seconds as int),
    {
        let now = clock::unix_now();
        Claims::new_at(user_id, level, user_name, company_id, company_name, ttl_seconds, now)
    }

    /// Returns a copy with the display name replaced.
    pub fn with_user_name(self, user_name: String) -> (r: Claims)
        ensures
            r@ == (ClaimsView { user_name: user_name@, ..self@ }),
    {
        Claims { user_name, ..self }
    }

    /// Returns a copy with the tenant identifier replaced.
    pub fn with_compnay_id(self, company_id: String) -> (r: Claims)
        ensures
            r@ == (ClaimsView { company_id: company_id@, ..self@ }),
    {
        Claims { company_id, ..self }
    }

    /// Returns a copy with the tenant display name replaced.
    pub fn with_compnay_name(self, company_name: String) -> (r: Claims)
        ensures
            r@ == (ClaimsView { company_name: company_name@, ..self@ }),
    {
        Claims { company_name, ..self }
    }

    /// Returns a copy with the scope set.
    pub fn with_scope(self, scope: String) -> (r: Claims)
        ensures
            r@ == (ClaimsView { scope: Option::Some(scope@), ..self@ }),
    {
        Claims { scope: Option::Some(scope), ..self }
    }

    /// Whether the time window contains the given moment: `iat <= now < exp`.
    pub fn is_valid_at(&self, now: i64) -> (r: bool)
        ensures
            r == valid_at(self@, now as int),
    {
        self.exp > now && self.iat <= now
    }

    /// Reads the clock and evaluates the time window at that moment.  The
    /// reading itself cannot be pinned down, so all that is promised is
    /// what holds of every reading: an empty window never validates.
    pub fn is_valid(&self) -> (r: bool)
        ensures
            self@.exp <= self@.iat ==> r == false,
    {
        let now = clock::unix_now();
        self.is_valid_at(now)
    }
}

/// The default claims value: every string empty, every integer zero,
/// scope absent.  What malformed input deserializes to.
pub open spec fn default_claims_view() -> ClaimsView {
    ClaimsView {
        user_id: Seq::empty(),
        level: 0,
        user_name: Seq::empty(),
        company_id: Seq::empty(),
        company_name: Seq::empty(),
        exp: 0,
        iat: 0,
        scope: Option::None,
    }
}

impl Claims {
    /// Writes the canonical JSON text of this value.
    pub fn to_json_string(&self) -> (r: String)
        ensures
            r@ == crate::jsontext::json_chars_of(self@),
    {
        let chars = crate::jsontext::claims_to_chars(self);
        crate::textio::chars_to_string(&chars)
    }

    /// Reads the canonical JSON text back; malformed or absent input gives
    /// the default value rather than an error.  A round-tripped-but-
    /// defaulted value is no evidence of validity: only the codec's
    /// signature check establishes trust, and the codec's own decoding
    /// path rejects malformed payloads instead of defaulting.
    pub fn from_json_string(json_str: &str) -> (r: Claims)
        ensures
            match crate::jsontext::parse_claims_chars(json_str@) {
                Some(c) => r@ == c,
                None => r@ == default_claims_view(),
            },
    {
        let chars = crate::textio::str_to_chars(json_str);
        match crate::jsontext::parse_claims(&chars) {
            Option::Some(c) => c,
            Option::None => Claims {
                user_id: String::new(),
                level: 0,
                user_name: String::new(),
                company_id: String::new(),
                company_name: String::new(),
                exp: 0,
                iat: 0,
                scope: Option::None,
            },
        }
    }
}

/// A claims value whose expiry equals the present moment is already
/// invalid, and one that expires one second later is still valid: the
/// window is exclusive on `exp` and inclusive on `iat`.
pub proof fn lemma_expiry_boundary(c: ClaimsView, now: int)
    requires
        c.iat <= now,
    ensures
        c.exp == now ==> !valid_at(c, now),
        c.exp == now + 1 ==> valid_at(c, now),
{
}

} // verus!
