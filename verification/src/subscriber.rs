//! Subscribers and the table that keeps them.

use vstd::prelude::*;
use crate::errors::StoreError;

verus! {

/// Whether a subscriber has proved that the address is theirs.
#[derive(Clone, Copy, Debug, PartialEq, Eq, Structural)]
pub enum SubscriberStatus {
    /// Registered; the confirmation token has not been redeemed.
    Pending,
    /// The confirmation token was redeemed; newsletters are sent.
    Confirmed,
}

/// One subscriber.
#[derive(Debug)]
pub struct Subscriber {
    pub id: u128,
    pub email: String,
    pub name: String,
    pub status: SubscriberStatus,
    /// Seconds since the Unix epoch.
    pub subscribed_at: i64,
}

/// A subscriber as a mathematical value.
pub struct SubscriberView {
    pub id: u128,
    pub email: Seq<char>,
    pub name: Seq<char>,
    pub status: SubscriberStatus,
    pub subscribed_at: i64,
}

impl View for Subscriber {
    type V = SubscriberView;

    open spec fn view(&self) -> SubscriberView {
        SubscriberView {
            id: self.id,
            email: self.email@,
            name: self.name@,
            status: self.status,
            subscribed_at: self.subscribed_at,
        }
    }
}

impl Subscriber {
    /// A copy with the same content.
    pub fn duplicate(&self) -> (r: Subscriber)
        ensures
            r@ == self@,
    {
        Subscriber {
            id: self.id,
            email: self.email.clone(),
            name: self.name.clone(),
            status: self.status,
            subscribed_at: self.subscribed_at,
        }
    }
}

/// The views of a run of subscribers.
pub open spec fn views_of(rows: Seq<Subscriber>) -> Seq<SubscriberView> {
    rows.map_values(|s: Subscriber| s@)
}

/// Whether some row carries the identifier.
pub open spec fn has_id(rows: Seq<SubscriberView>, id: u128) -> bool {
    exists|i: int| 0 <= i < rows.len() && (#[trigger] rows[i]).id == id
}

/// Whether some row carries the address.
pub open spec fn has_email(rows: Seq<SubscriberView>, email: Seq<char>) -> bool {
    exists|i: int| 0 <= i < rows.len() && (#[trigger] rows[i]).email == email
}

/// The table's rule: no identifier and no address occurs in two rows.
pub open spec fn rows_wf(rows: Seq<SubscriberView>) -> bool {
    forall|i: int, j: int|
        0 <= i < j < rows.len() ==> (#[trigger] rows[i]).id != (#[trigger] rows[j]).id
            && rows[i].email != rows[j].email
}

/// The position of the row with the identifier, where there is one.
pub open spec fn position_of(rows: Seq<SubscriberView>, id: u128) -> int {
    choose|i: int| 0 <= i < rows.len() && (#[trigger] rows[i]).id == id
}

/// The status of the subscriber with the identifier, if it is stored.
pub open spec fn status_of(rows: Seq<SubscriberView>, id: u128) -> Option<SubscriberStatus> {
    if has_id(rows, id) {
        Some(rows[position_of(rows, id)].status)
    } else {
        None
    }
}

/// The table after the subscriber with the identifier got the status; every
/// other field and every other row stays.
pub open spec fn with_status(
    rows: Seq<SubscriberView>,
    id: u128,
    status: SubscriberStatus,
) -> Seq<SubscriberView> {
    Seq::new(
        rows.len(),
        |i: int|
            if rows[i].id == id {
                SubscriberView { status: status, ..rows[i] }
            } else {
                rows[i]
            },
    )
}

/// The confirmed subscribers, in the order of the table.
pub open spec fn confirmed_of(rows: Seq<SubscriberView>) -> Seq<SubscriberView>
    decreases rows.len(),
{
    if rows.len() == 0 {
        Seq::empty()
    } else if rows.last().status == SubscriberStatus::Confirmed {
        confirmed_of(rows.drop_last()).push(rows.last())
    } else {
        confirmed_of(rows.drop_last())
    }
}

/// What an insert answers: the first uniqueness rule that the new row would
/// break, if any.
pub open spec fn insert_verdict(rows: Seq<SubscriberView>, s: SubscriberView) -> Result<
    (),
    StoreError,
> {
    if has_id(rows, s.id) {
        Err(StoreError::DuplicateSubscriberId)
    } else if has_email(rows, s.email) {
        Err(StoreError::DuplicateEmail)
    } else {
        Ok(())
    }
}

/// Under the table's rule a status change keeps the rule, the identifiers
/// and the addresses.
pub proof fn lemma_with_status_keeps_keys(
    rows: Seq<SubscriberView>,
    id: u128,
    status: SubscriberStatus,
)
    ensures
        with_status(rows, id, status).len() == rows.len(),
        forall|i: int|
            0 <= i < rows.len() ==> (#[trigger] with_status(rows, id, status)[i]).id == rows[i].id
                && with_status(rows, id, status)[i].email == rows[i].email,
        rows_wf(rows) ==> rows_wf(with_status(rows, id, status)),
        forall|other: u128| has_id(with_status(rows, id, status), other) == has_id(rows, other),
{
    let after = with_status(rows, id, status);
    assert forall|other: u128| has_id(after, other) == has_id(rows, other) by {
        if has_id(rows, other) {
            let i = choose|i: int| 0 <= i < rows.len() && (#[trigger] rows[i]).id == other;
            assert(after[i].id == other);
        }
        if has_id(after, other) {
            let i = choose|i: int| 0 <= i < after.len() && (#[trigger] after[i]).id == other;
            assert(rows[i].id == other);
        }
    }
    if rows_wf(rows) {
        assert forall|i: int, j: int| 0 <= i < j < after.len() implies (#[trigger] after[i]).id != (
        #[trigger] after[j]).id && after[i].email != after[j].email by {
            assert(rows[i].id != rows[j].id && rows[i].email != rows[j].email);
        }
    }
}

/// The table of subscribers, in the order in which they were stored.
pub struct SubscriberStore {
    rows: Vec<Subscriber>,
}

impl View for SubscriberStore {
    type V = Seq<SubscriberView>;

    closed spec fn view(&self) -> Seq<SubscriberView> {
        views_of(self.rows@)
    }
}

impl SubscriberStore {
    /// The table's rule holds of its rows.
    pub open spec fn wf(&self) -> bool {
        rows_wf(self@)
    }

    /// An empty table.
    pub fn new() -> (s: SubscriberStore)
        ensures
            s@ == Seq::<SubscriberView>::empty(),
            s.wf(),
    {
        let s = SubscriberStore { rows: Vec::new() };
        assert(s@ =~= Seq::<SubscriberView>::empty());
        s
    }

    /// The number of rows.
    pub fn len(&self) -> (n: usize)
        ensures
            n == self@.len(),
    {
        self.rows.len()
    }

    /// The row at a position.
    pub fn row(&self, i: usize) -> (r: &Subscriber)
        requires
            i < self@.len(),
        ensures
            r@ == self@[i as int],
    {
        &self.rows[i]
    }

    /// The position of the row with the identifier.
    pub fn find_by_id(&self, id: u128) -> (r: Option<usize>)
        ensures
            r is Some <==> has_id(self@, id),
            r matches Some(i) ==> i < self@.len() && self@[i as int].id == id,
            r matches Some(i) ==> self.wf() ==> i == position_of(self@, id),
    {
        let mut i: usize = 0;
        while i < self.rows.len()
            invariant
                0 <= i <= self.rows@.len(),
                forall|j: int| 0 <= j < i ==> (#[trigger] self@[j]).id != id,
            decreases self.rows@.len() - i,
        {
            if self.rows[i].id == id {
                assert(self@[i as int].id == id);
                return Some(i);
            }
            i = i + 1;
        }
        None
    }

    /// The position of the row with the address.
    pub fn find_by_email(&self, email: &str) -> (r: Option<usize>)
        ensures
            r is Some <==> has_email(self@, email@),
            r matches Some(i) ==> i < self@.len() && self@[i as int].email == email@,
    {
        let wanted = String::from_str(email);
        let mut i: usize = 0;
        while i < self.rows.len()
            invariant
                0 <= i <= self.rows@.len(),
                wanted@ == email@,
                forall|j: int| 0 <= j < i ==> (#[trigger] self@[j]).email != email@,
            decreases self.rows@.len() - i,
        {
            if self.rows[i].email == wanted {
                assert(self@[i as int].email == email@);
                return Some(i);
            }
            i = i + 1;
        }
        None
    }

    /// Stores a new subscriber, unless its identifier or its address is
    /// stored already; a refused insert changes nothing.
    pub fn insert(&mut self, s: Subscriber) -> (r: Result<(), StoreError>)
        requires
            old(self).wf(),
        ensures
            final(self).wf(),
            r == insert_verdict(old(self)@, s@),
            final(self)@ == if r is Ok {
                old(self)@.push(s@)
            } else {
                old(self)@
            },
    {
        if self.find_by_id(s.id).is_some() {
            return Err(StoreError::DuplicateSubscriberId);
        }
        if self.find_by_email(s.email.as_str()).is_some() {
            return Err(StoreError::DuplicateEmail);
        }
        let ghost before = self@;
        self.rows.push(s);
        proof {
            assert(self@ =~= before.push(s@));
            assert forall|i: int, j: int| 0 <= i < j < self@.len() implies (#[trigger] self@[i]).id
                != (#[trigger] self@[j]).id && self@[i].email != self@[j].email by {
                if j == before.len() {
                    assert(before[i].id != s@.id);
                    assert(before[i].email != s@.email);
                } else {
                    assert(before[i].id != before[j].id);
                }
            }
        }
        Ok(())
    }

    /// Gives the subscriber with the identifier the status. Answers whether
    /// such a subscriber is stored; if none is, nothing changes.
    pub fn set_status(&mut self, id: u128, status: SubscriberStatus) -> (found: bool)
        requires
            old(self).wf(),
        ensures
            final(self).wf(),
            found == has_id(old(self)@, id),
            final(self)@ == with_status(old(self)@, id, status),
    {
        let ghost before = self@;
        proof {
            lemma_with_status_keeps_keys(before, id, status);
        }
        match self.find_by_id(id) {
            None => {
                assert(self@ =~= with_status(before, id, status));
                false
            },
            Some(i) => {
                let mut row = self.rows[i].duplicate();
                row.status = status;
                self.rows.set(i, row);
                proof {
                    assert forall|j: int| 0 <= j < before.len() implies self@[j] == with_status(
                        before,
                        id,
                        status,
                    )[j] by {
                        if j != i {
                            assert(before[j].id != before[i as int].id);
                        }
                    }
                    assert(self@ =~= with_status(before, id, status));
                }
                true
            },
        }
    }

    /// The position of the first confirmed subscriber at or after `from`,
    /// so that the confirmed subscribers can be walked one by one.
    pub fn next_confirmed(&self, from: usize) -> (r: Option<usize>)
        ensures
            match r {
                Some(i) => from <= i < self@.len() && self@[i as int].status
                    == SubscriberStatus::Confirmed && forall|j: int|
                    from <= j < i ==> (#[trigger] self@[j]).status != SubscriberStatus::Confirmed,
                None => forall|j: int|
                    from <= j < self@.len() ==> (#[trigger] self@[j]).status
                        != SubscriberStatus::Confirmed,
            },
    {
        let mut i: usize = from;
        while i < self.rows.len()
            invariant
                from <= i,
                forall|j: int|
                    from <= j < i && j < self@.len() ==> (#[trigger] self@[j]).status
                        != SubscriberStatus::Confirmed,
            decreases self.rows@.len() - i,
        {
            if self.rows[i].status == SubscriberStatus::Confirmed {
                assert(self@[i as int].status == SubscriberStatus::Confirmed);
                return Some(i);
            }
            assert(self@[i as int].status != SubscriberStatus::Confirmed);
            i = i + 1;
        }
        None
    }

    /// The confirmed subscribers, in the order of the table.
    pub fn list_confirmed(&self) -> (out: Vec<Subscriber>)
        ensures
            views_of(out@) == confirmed_of(self@),
    {
        let mut out: Vec<Subscriber> = Vec::new();
        let mut i: usize = 0;
        assert(self@.take(0) =~= Seq::<SubscriberView>::empty());
        assert(views_of(out@) =~= confirmed_of(self@.take(0)));
        while i < self.rows.len()
            invariant
                0 <= i <= self.rows@.len(),
                views_of(out@) == confirmed_of(self@.take(i as int)),
            decreases self.rows@.len() - i,
        {
            let ghost prefix = self@.take(i as int);
            let ghost next = self@.take(i + 1);
            let ghost collected = out@;
            proof {
                assert(next.drop_last() =~= prefix);
                assert(next.last() == self@[i as int]);
            }
            if self.rows[i].status == SubscriberStatus::Confirmed {
                out.push(self.rows[i].duplicate());
                assert(views_of(out@) =~= views_of(collected).push(self@[i as int]));
            }
            i = i + 1;
        }
        assert(self@.take(i as int) =~= self@);
        out
    }
}

} // verus!
