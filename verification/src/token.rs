//! Confirmation tokens and the table that binds each to its subscriber.

use vstd::prelude::*;
use crate::encoding::{hex32, push_hex32};
use crate::errors::{Error, StoreError};
use crate::system::{is_random_uuid, random_uuid};

verus! {

/// A one-time token and the subscriber it confirms.
#[derive(Debug)]
pub struct ConfirmationToken {
    pub token: String,
    pub subscriber_id: u128,
}

/// A binding as a mathematical value.
pub struct TokenView {
    pub token: Seq<char>,
    pub subscriber_id: u128,
}

impl View for ConfirmationToken {
    type V = TokenView;

    open spec fn view(&self) -> TokenView {
        TokenView { token: self.token@, subscriber_id: self.subscriber_id }
    }
}

/// The text of the token made of two random numbers: 64 hexadecimal digits.
pub open spec fn token_text(hi: u128, lo: u128) -> Seq<char> {
    hex32(hi) + hex32(lo)
}

/// Writes the token made of two numbers.
pub fn token_from(hi: u128, lo: u128) -> (s: String)
    ensures
        s@ == token_text(hi, lo),
{
    let mut s = String::new();
    push_hex32(&mut s, hi);
    push_hex32(&mut s, lo);
    assert(s@ =~= token_text(hi, lo));
    s
}

/// The views of a run of bindings.
pub open spec fn bindings_of(rows: Seq<ConfirmationToken>) -> Seq<TokenView> {
    rows.map_values(|b: ConfirmationToken| b@)
}

/// Whether the token is bound.
pub open spec fn has_token(ts: Seq<TokenView>, token: Seq<char>) -> bool {
    exists|i: int| 0 <= i < ts.len() && (#[trigger] ts[i]).token == token
}

/// Whether the subscriber has a live token.
pub open spec fn has_binding(ts: Seq<TokenView>, subscriber_id: u128) -> bool {
    exists|i: int| 0 <= i < ts.len() && (#[trigger] ts[i]).subscriber_id == subscriber_id
}

/// The table's rule: no token is bound twice, and no subscriber has two
/// live tokens.
pub open spec fn tokens_wf(ts: Seq<TokenView>) -> bool {
    forall|i: int, j: int|
        0 <= i < j < ts.len() ==> (#[trigger] ts[i]).token != (#[trigger] ts[j]).token
            && ts[i].subscriber_id != ts[j].subscriber_id
}

/// The position of the token's binding, where it is bound.
pub open spec fn token_position(ts: Seq<TokenView>, token: Seq<char>) -> int {
    choose|i: int| 0 <= i < ts.len() && (#[trigger] ts[i]).token == token
}

/// The position of the subscriber's binding, where there is one.
pub open spec fn binding_position(ts: Seq<TokenView>, subscriber_id: u128) -> int {
    choose|i: int| 0 <= i < ts.len() && (#[trigger] ts[i]).subscriber_id == subscriber_id
}

/// The subscriber that a bound token confirms.
pub open spec fn owner_of(ts: Seq<TokenView>, token: Seq<char>) -> u128 {
    ts[token_position(ts, token)].subscriber_id
}

/// The table without the subscriber's live token.
pub open spec fn without_binding(ts: Seq<TokenView>, subscriber_id: u128) -> Seq<TokenView> {
    if has_binding(ts, subscriber_id) {
        ts.remove(binding_position(ts, subscriber_id))
    } else {
        ts
    }
}

/// What issuing a token answers: it is refused where the token is bound
/// already.
pub open spec fn issue_verdict(ts: Seq<TokenView>, token: Seq<char>) -> Result<(), StoreError> {
    if has_token(ts, token) {
        Err(StoreError::DuplicateToken)
    } else {
        Ok(())
    }
}

/// The table after a token was issued: the subscriber's earlier token, if
/// there was one, is gone, and the new binding stands last.
pub open spec fn after_issue(ts: Seq<TokenView>, subscriber_id: u128, token: Seq<char>) -> Seq<
    TokenView,
> {
    without_binding(ts, subscriber_id).push(
        TokenView { token: token, subscriber_id: subscriber_id },
    )
}

/// Issuing a token as one step: the table after it, and the token handed
/// back or the refusal. A refused token leaves the table as it was.
pub open spec fn issue_step(ts: Seq<TokenView>, subscriber_id: u128, token: Seq<char>) -> (
    Seq<TokenView>,
    Result<Seq<char>, StoreError>,
) {
    match issue_verdict(ts, token) {
        Ok(_) => (after_issue(ts, subscriber_id, token), Ok(token)),
        Err(e) => (ts, Err(e)),
    }
}

/// What issuing handed back, as a mathematical value.
pub open spec fn issued_view(r: Result<String, StoreError>) -> Result<Seq<char>, StoreError> {
    match r {
        Ok(t) => Ok(t@),
        Err(e) => Err(e),
    }
}

/// What redeeming a token answers: its subscriber, or that it is not bound.
pub open spec fn redeem_verdict(ts: Seq<TokenView>, token: Seq<char>) -> Result<u128, Error> {
    if has_token(ts, token) {
        Ok(owner_of(ts, token))
    } else {
        Err(Error::TokenNotFound)
    }
}

/// The table after a token was redeemed: its binding is gone.
pub open spec fn after_redeem(ts: Seq<TokenView>, token: Seq<char>) -> Seq<TokenView> {
    if has_token(ts, token) {
        ts.remove(token_position(ts, token))
    } else {
        ts
    }
}

/// Removing a row keeps the table's rule, and takes away exactly that row's
/// token and subscriber.
pub proof fn lemma_remove_binding(ts: Seq<TokenView>, k: int)
    requires
        tokens_wf(ts),
        0 <= k < ts.len(),
    ensures
        tokens_wf(ts.remove(k)),
        !has_token(ts.remove(k), ts[k].token),
        !has_binding(ts.remove(k), ts[k].subscriber_id),
        forall|t: Seq<char>| t != ts[k].token ==> has_token(ts.remove(k), t) == has_token(ts, t),
        forall|s: u128|
            s != ts[k].subscriber_id ==> has_binding(ts.remove(k), s) == has_binding(ts, s),
{
    let after = ts.remove(k);
    assert forall|i: int| 0 <= i < after.len() implies #[trigger] after[i] == ts[if i < k {
        i
    } else {
        i + 1
    }] by {}
    assert forall|i: int, j: int| 0 <= i < j < after.len() implies (#[trigger] after[i]).token != (
    #[trigger] after[j]).token && after[i].subscriber_id != after[j].subscriber_id by {
        let a = if i < k { i } else { i + 1 };
        let b = if j < k { j } else { j + 1 };
        assert(ts[a].token != ts[b].token && ts[a].subscriber_id != ts[b].subscriber_id);
    }
    if has_token(after, ts[k].token) {
        let i = choose|i: int| 0 <= i < after.len() && (#[trigger] after[i]).token == ts[k].token;
        let a = if i < k { i } else { i + 1 };
        assert(ts[a].token == ts[k].token);
        if a < k {
            assert(ts[a].token != ts[k].token);
        } else {
            assert(ts[k].token != ts[a].token);
        }
    }
    if has_binding(after, ts[k].subscriber_id) {
        let i = choose|i: int|
            0 <= i < after.len() && (#[trigger] after[i]).subscriber_id == ts[k].subscriber_id;
        let a = if i < k { i } else { i + 1 };
        assert(ts[a].subscriber_id == ts[k].subscriber_id);
        if a < k {
            assert(ts[a].subscriber_id != ts[k].subscriber_id);
        } else {
            assert(ts[k].subscriber_id != ts[a].subscriber_id);
        }
    }
    assert forall|t: Seq<char>| t != ts[k].token implies has_token(after, t) == has_token(
        ts,
        t,
    ) by {
        if has_token(ts, t) {
            let a = choose|a: int| 0 <= a < ts.len() && (#[trigger] ts[a]).token == t;
            let i = if a < k { a } else { a - 1 };
            assert(after[i].token == t);
        }
        if has_token(after, t) {
            let i = choose|i: int| 0 <= i < after.len() && (#[trigger] after[i]).token == t;
            let a = if i < k { i } else { i + 1 };
            assert(ts[a].token == t);
        }
    }
    assert forall|s: u128| s != ts[k].subscriber_id implies has_binding(after, s) == has_binding(
        ts,
        s,
    ) by {
        if has_binding(ts, s) {
            let a = choose|a: int| 0 <= a < ts.len() && (#[trigger] ts[a]).subscriber_id == s;
            let i = if a < k { a } else { a - 1 };
            assert(after[i].subscriber_id == s);
        }
        if has_binding(after, s) {
            let i = choose|i: int| 0 <= i < after.len() && (#[trigger] after[i]).subscriber_id == s;
            let a = if i < k { i } else { i + 1 };
            assert(ts[a].subscriber_id == s);
        }
    }
}

/// Appending a binding with a fresh token for a subscriber without one
/// keeps the table's rule.
pub proof fn lemma_push_binding(ts: Seq<TokenView>, b: TokenView)
    requires
        tokens_wf(ts),
        !has_token(ts, b.token),
        !has_binding(ts, b.subscriber_id),
    ensures
        tokens_wf(ts.push(b)),
        has_token(ts.push(b), b.token),
        token_position(ts.push(b), b.token) == ts.len(),
        owner_of(ts.push(b), b.token) == b.subscriber_id,
{
    let after = ts.push(b);
    assert forall|i: int, j: int| 0 <= i < j < after.len() implies (#[trigger] after[i]).token != (
    #[trigger] after[j]).token && after[i].subscriber_id != after[j].subscriber_id by {
        if j == ts.len() {
            assert(ts[i].token != b.token);
            assert(ts[i].subscriber_id != b.subscriber_id);
        } else {
            assert(ts[i].token != ts[j].token);
        }
    }
    assert(after[ts.len() as int].token == b.token);
    let p = token_position(after, b.token);
    if p < ts.len() {
        assert(ts[p].token == b.token);
    }
}

/// The table of live tokens, in the order in which they were issued.
pub struct TokenService {
    bindings: Vec<ConfirmationToken>,
}

impl View for TokenService {
    type V = Seq<TokenView>;

    closed spec fn view(&self) -> Seq<TokenView> {
        bindings_of(self.bindings@)
    }
}

impl TokenService {
    /// The table's rule holds of its rows.
    pub open spec fn wf(&self) -> bool {
        tokens_wf(self@)
    }

    /// An empty table.
    pub fn new() -> (s: TokenService)
        ensures
            s@ == Seq::<TokenView>::empty(),
            s.wf(),
    {
        let s = TokenService { bindings: Vec::new() };
        assert(s@ =~= Seq::<TokenView>::empty());
        s
    }

    /// The number of live tokens.
    pub fn len(&self) -> (n: usize)
        ensures
            n == self@.len(),
    {
        self.bindings.len()
    }

    fn position_of_token(&self, token: &String) -> (r: Option<usize>)
        ensures
            r is Some <==> has_token(self@, token@),
            r matches Some(i) ==> i < self@.len() && self@[i as int].token == token@,
            r matches Some(i) ==> self.wf() ==> i == token_position(self@, token@),
    {
        let mut i: usize = 0;
        while i < self.bindings.len()
            invariant
                0 <= i <= self.bindings@.len(),
                forall|j: int| 0 <= j < i ==> (#[trigger] self@[j]).token != token@,
            decreases self.bindings@.len() - i,
        {
            if self.bindings[i].token == *token {
                assert(self@[i as int].token == token@);
                return Some(i);
            }
            i = i + 1;
        }
        None
    }

    fn position_of_subscriber(&self, subscriber_id: u128) -> (r: Option<usize>)
        ensures
            r is Some <==> has_binding(self@, subscriber_id),
            r matches Some(i) ==> i < self@.len() && self@[i as int].subscriber_id
                == subscriber_id,
            r matches Some(i) ==> self.wf() ==> i == binding_position(self@, subscriber_id),
    {
        let mut i: usize = 0;
        while i < self.bindings.len()
            invariant
                0 <= i <= self.bindings@.len(),
                forall|j: int| 0 <= j < i ==> (#[trigger] self@[j]).subscriber_id != subscriber_id,
            decreases self.bindings@.len() - i,
        {
            if self.bindings[i].subscriber_id == subscriber_id {
                assert(self@[i as int].subscriber_id == subscriber_id);
                return Some(i);
            }
            i = i + 1;
        }
        None
    }

    /// The subscriber that the token confirms, if the token is live.
    /// Nothing changes.
    pub fn find(&self, token: &str) -> (r: Option<u128>)
        requires
            self.wf(),
        ensures
            r is Some <==> has_token(self@, token@),
            r matches Some(id) ==> id == owner_of(self@, token@),
    {
        let wanted = String::from_str(token);
        match self.position_of_token(&wanted) {
            Some(i) => {
                assert(self@[i as int].subscriber_id == self.bindings@[i as int].subscriber_id);
                Some(self.bindings[i].subscriber_id)
            },
            None => None,
        }
    }

    /// Binds `token` to the subscriber, in place of the subscriber's earlier
    /// token if there was one. Refused, with nothing changed, where the
    /// token is bound already.
    pub fn issue_with(&mut self, subscriber_id: u128, token: String) -> (r: Result<
        (),
        StoreError,
    >)
        requires
            old(self).wf(),
        ensures
            final(self).wf(),
            r == issue_verdict(old(self)@, token@),
            final(self)@ == if r is Ok {
                after_issue(old(self)@, subscriber_id, token@)
            } else {
                old(self)@
            },
    {
        if self.position_of_token(&token).is_some() {
            return Err(StoreError::DuplicateToken);
        }
        let ghost before = self@;
        match self.position_of_subscriber(subscriber_id) {
            Some(i) => {
                let gone = self.bindings.remove(i);
                proof {
                    assert(self@ =~= before.remove(i as int));
                    lemma_remove_binding(before, i as int);
                    if has_token(self@, token@) {
                        assert(has_token(before, token@));
                    }
                }
            },
            None => {},
        }
        let ghost middle = self@;
        assert(middle == without_binding(before, subscriber_id));
        let binding = ConfirmationToken { token: token, subscriber_id: subscriber_id };
        self.bindings.push(binding);
        proof {
            assert(self@ =~= middle.push(binding@));
            lemma_push_binding(middle, binding@);
        }
        Ok(())
    }

    /// Draws a fresh random token and binds it to the subscriber, in place
    /// of the subscriber's earlier token. Returns the token; refused, with
    /// nothing changed, in the event that the drawn token is bound already.
    pub fn issue(&mut self, subscriber_id: u128) -> (r: Result<String, StoreError>)
        requires
            old(self).wf(),
        ensures
            final(self).wf(),
            exists|hi: u128, lo: u128|
                is_random_uuid(hi) && is_random_uuid(lo) && (final(self)@, issued_view(r))
                    == #[trigger] issue_step(old(self)@, subscriber_id, token_text(hi, lo)),
    {
        let hi = random_uuid();
        let lo = random_uuid();
        let token = token_from(hi, lo);
        let kept = token.clone();
        let ghost before = self@;
        let r = match self.issue_with(subscriber_id, token) {
            Ok(()) => Ok(kept),
            Err(e) => Err(e),
        };
        assert((self@, issued_view(r)) == issue_step(before, subscriber_id, token_text(hi, lo)));
        r
    }

    /// Consumes the token: answers the subscriber it confirms and removes
    /// the binding, so that the same token is not found again. An unknown
    /// token changes nothing.
    pub fn redeem(&mut self, token: &str) -> (r: Result<u128, Error>)
        requires
            old(self).wf(),
        ensures
            final(self).wf(),
            r == redeem_verdict(old(self)@, token@),
            final(self)@ == after_redeem(old(self)@, token@),
    {
        let wanted = String::from_str(token);
        let ghost before = self@;
        match self.position_of_token(&wanted) {
            Some(i) => {
                let gone = self.bindings.remove(i);
                proof {
                    assert(gone@ == before[i as int]);
                    assert(self@ =~= before.remove(i as int));
                    lemma_remove_binding(before, i as int);
                }
                Ok(gone.subscriber_id)
            },
            None => Err(Error::TokenNotFound),
        }
    }
}

} // verus!
