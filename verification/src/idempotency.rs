//! The record of answered publish requests: one saved response for each
//! pair of owner and idempotency key.

use vstd::prelude::*;
use crate::encoding::copy_bytes;
use crate::errors::Error;

verus! {

/// A response as it was given and as it is given again.
#[derive(Debug)]
pub struct SavedResponse {
    pub status: u16,
    pub body: Vec<u8>,
}

/// A response as a mathematical value.
pub struct ResponseView {
    pub status: u16,
    pub body: Seq<u8>,
}

impl View for SavedResponse {
    type V = ResponseView;

    open spec fn view(&self) -> ResponseView {
        ResponseView { status: self.status, body: self.body@ }
    }
}

impl SavedResponse {
    /// A copy with the same content.
    pub fn duplicate(&self) -> (r: SavedResponse)
        ensures
            r@ == self@,
    {
        SavedResponse { status: self.status, body: copy_bytes(&self.body) }
    }
}

/// The response saved for one owner and key.
#[derive(Debug)]
pub struct IdempotencyRecord {
    pub idempotency_key: String,
    pub owner_id: String,
    pub response_status: u16,
    pub response_body: Vec<u8>,
    /// Seconds since the Unix epoch.
    pub created_at: i64,
}

/// A record as a mathematical value.
pub struct RecordView {
    pub idempotency_key: Seq<char>,
    pub owner_id: Seq<char>,
    pub response_status: u16,
    pub response_body: Seq<u8>,
    pub created_at: i64,
}

impl View for IdempotencyRecord {
    type V = RecordView;

    open spec fn view(&self) -> RecordView {
        RecordView {
            idempotency_key: self.idempotency_key@,
            owner_id: self.owner_id@,
            response_status: self.response_status,
            response_body: self.response_body@,
            created_at: self.created_at,
        }
    }
}

/// The views of a run of records.
pub open spec fn records_of(rows: Seq<IdempotencyRecord>) -> Seq<RecordView> {
    rows.map_values(|r: IdempotencyRecord| r@)
}

/// Whether a record is the one for the owner and key.
pub open spec fn is_for(r: RecordView, owner_id: Seq<char>, key: Seq<char>) -> bool {
    r.owner_id == owner_id && r.idempotency_key == key
}

/// Whether a response is saved for the owner and key.
pub open spec fn has_record(rs: Seq<RecordView>, owner_id: Seq<char>, key: Seq<char>) -> bool {
    exists|i: int| 0 <= i < rs.len() && is_for(#[trigger] rs[i], owner_id, key)
}

/// The table's rule: no pair of owner and key has two records.
pub open spec fn records_wf(rs: Seq<RecordView>) -> bool {
    forall|i: int, j: int|
        0 <= i < j < rs.len() ==> !is_for(
            #[trigger] rs[i],
            (#[trigger] rs[j]).owner_id,
            rs[j].idempotency_key,
        )
}

/// The position of the record for the owner and key, where there is one.
pub open spec fn record_position(rs: Seq<RecordView>, owner_id: Seq<char>, key: Seq<char>) -> int {
    choose|i: int| 0 <= i < rs.len() && is_for(#[trigger] rs[i], owner_id, key)
}

/// The response that a record holds.
pub open spec fn response_of(r: RecordView) -> ResponseView {
    ResponseView { status: r.response_status, body: r.response_body }
}

/// The response saved for the owner and key, if there is one.
pub open spec fn saved_response(rs: Seq<RecordView>, owner_id: Seq<char>, key: Seq<char>)
    -> Option<ResponseView> {
    if has_record(rs, owner_id, key) {
        Some(response_of(rs[record_position(rs, owner_id, key)]))
    } else {
        None
    }
}

/// The record that saves a response.
pub open spec fn record_for(
    owner_id: Seq<char>,
    key: Seq<char>,
    response: ResponseView,
    now: i64,
) -> RecordView {
    RecordView {
        idempotency_key: key,
        owner_id: owner_id,
        response_status: response.status,
        response_body: response.body,
        created_at: now,
    }
}

/// Saving as one step: where the owner and key have a record already the
/// save is refused as a duplicate and nothing changes; otherwise the new
/// record stands last.
pub open spec fn save_step(
    rs: Seq<RecordView>,
    owner_id: Seq<char>,
    key: Seq<char>,
    response: ResponseView,
    now: i64,
) -> (Seq<RecordView>, Result<(), Error>) {
    if has_record(rs, owner_id, key) {
        (rs, Err(Error::DuplicateIdempotencyKey))
    } else {
        (rs.push(record_for(owner_id, key, response, now)), Ok(()))
    }
}

/// What a lookup found, as a mathematical value.
pub open spec fn found_view(r: Option<SavedResponse>) -> Option<ResponseView> {
    match r {
        Some(r) => Some(r@),
        None => None,
    }
}

/// Under the table's rule the response found for the owner and key of a
/// row is the one that this row holds.
pub proof fn lemma_saved_response_of_row(rs: Seq<RecordView>, j: int)
    requires
        records_wf(rs),
        0 <= j < rs.len(),
    ensures
        has_record(rs, rs[j].owner_id, rs[j].idempotency_key),
        record_position(rs, rs[j].owner_id, rs[j].idempotency_key) == j,
        saved_response(rs, rs[j].owner_id, rs[j].idempotency_key) == Some(response_of(rs[j])),
{
    assert(is_for(rs[j], rs[j].owner_id, rs[j].idempotency_key));
    let p = record_position(rs, rs[j].owner_id, rs[j].idempotency_key);
    if p < j {
        assert(!is_for(rs[p], rs[j].owner_id, rs[j].idempotency_key));
    } else if j < p {
        assert(!is_for(rs[j], rs[p].owner_id, rs[p].idempotency_key));
    }
}

/// A save that is carried out keeps the table's rule, can be looked up
/// from then on, and leaves every other pair of owner and key as it was.
pub proof fn lemma_save_then_get(
    rs: Seq<RecordView>,
    owner_id: Seq<char>,
    key: Seq<char>,
    response: ResponseView,
    now: i64,
)
    requires
        records_wf(rs),
        !has_record(rs, owner_id, key),
    ensures
        records_wf(save_step(rs, owner_id, key, response, now).0),
        saved_response(save_step(rs, owner_id, key, response, now).0, owner_id, key) == Some(
            response,
        ),
        forall|o: Seq<char>, k: Seq<char>|
            !(o == owner_id && k == key) ==> saved_response(
                save_step(rs, owner_id, key, response, now).0,
                o,
                k,
            ) == saved_response(rs, o, k),
{
    let after = rs.push(record_for(owner_id, key, response, now));
    assert forall|i: int, j: int| 0 <= i < j < after.len() implies !is_for(
        #[trigger] after[i],
        (#[trigger] after[j]).owner_id,
        after[j].idempotency_key,
    ) by {
        if j == rs.len() {
            assert(!is_for(rs[i], owner_id, key));
        } else {
            assert(!is_for(rs[i], rs[j].owner_id, rs[j].idempotency_key));
        }
    }
    lemma_saved_response_of_row(after, rs.len() as int);
    assert forall|o: Seq<char>, k: Seq<char>| !(o == owner_id && k == key) implies saved_response(
        after,
        o,
        k,
    ) == saved_response(rs, o, k) by {
        if has_record(rs, o, k) {
            let j = record_position(rs, o, k);
            lemma_saved_response_of_row(rs, j);
            assert(after[j] == rs[j]);
            lemma_saved_response_of_row(after, j);
        } else if has_record(after, o, k) {
            let j = record_position(after, o, k);
            assert(is_for(rs[j], o, k));
        }
    }
}

/// The table of saved responses, in the order in which they were saved.
pub struct IdempotencyStore {
    records: Vec<IdempotencyRecord>,
}

impl View for IdempotencyStore {
    type V = Seq<RecordView>;

    closed spec fn view(&self) -> Seq<RecordView> {
        records_of(self.records@)
    }
}

impl IdempotencyStore {
    /// The table's rule holds of its rows.
    pub open spec fn wf(&self) -> bool {
        records_wf(self@)
    }

    /// An empty table.
    pub fn new() -> (s: IdempotencyStore)
        ensures
            s.wf(),
            s@ == Seq::<RecordView>::empty(),
    {
        let s = IdempotencyStore { records: Vec::new() };
        assert(s@ =~= Seq::<RecordView>::empty());
        s
    }

    /// The number of saved responses.
    pub fn len(&self) -> (n: usize)
        ensures
            n == self@.len(),
    {
        self.records.len()
    }

    fn position(&self, owner_id: &String, key: &String) -> (r: Option<usize>)
        ensures
            r is Some <==> has_record(self@, owner_id@, key@),
            r matches Some(i) ==> i < self@.len() && is_for(self@[i as int], owner_id@, key@),
            r matches Some(i) ==> self.wf() ==> i == record_position(self@, owner_id@, key@),
    {
        let mut i: usize = 0;
        while i < self.records.len()
            invariant
                0 <= i <= self.records@.len(),
                forall|j: int| 0 <= j < i ==> !is_for(#[trigger] self@[j], owner_id@, key@),
            decreases self.records@.len() - i,
        {
            if self.records[i].owner_id == *owner_id && self.records[i].idempotency_key == *key {
                assert(is_for(self@[i as int], owner_id@, key@));
                proof {
                    if self.wf() {
                        lemma_saved_response_of_row(self@, i as int);
                    }
                }
                return Some(i);
            }
            assert(!is_for(self@[i as int], owner_id@, key@));
            i = i + 1;
        }
        None
    }

    /// Whether a response is saved for the owner and key.
    pub fn contains(&self, owner_id: &str, key: &str) -> (b: bool)
        ensures
            b == has_record(self@, owner_id@, key@),
    {
        let owner = String::from_str(owner_id);
        let wanted = String::from_str(key);
        self.position(&owner, &wanted).is_some()
    }

    /// The response saved for the owner and key, if there is one. Nothing
    /// changes.
    pub fn get(&self, owner_id: &str, key: &str) -> (r: Option<SavedResponse>)
        requires
            self.wf(),
        ensures
            found_view(r) == saved_response(self@, owner_id@, key@),
    {
        let owner = String::from_str(owner_id);
        let wanted = String::from_str(key);
        match self.position(&owner, &wanted) {
            None => None,
            Some(i) => {
                assert(self@[i as int] == self.records@[i as int]@);
                Some(
                    SavedResponse {
                        status: self.records[i].response_status,
                        body: copy_bytes(&self.records[i].response_body),
                    },
                )
            },
        }
    }

    /// Saves the response for the owner and key, with `now` as the time of
    /// creation. Refused as a duplicate, with nothing changed, where the
    /// pair has a response already.
    pub fn save_at(&mut self, owner_id: String, key: String, response: &SavedResponse, now: i64)
        -> (r: Result<(), Error>)
        requires
            old(self).wf(),
        ensures
            final(self).wf(),
            (final(self)@, r) == save_step(old(self)@, owner_id@, key@, response@, now),
    {
        if self.position(&owner_id, &key).is_some() {
            return Err(Error::DuplicateIdempotencyKey);
        }
        let ghost before = self@;
        proof {
            lemma_save_then_get(before, owner_id@, key@, response@, now);
        }
        let record = IdempotencyRecord {
            idempotency_key: key,
            owner_id: owner_id,
            response_status: response.status,
            response_body: copy_bytes(&response.body),
            created_at: now,
        };
        self.records.push(record);
        assert(self@ =~= before.push(record@));
        Ok(())
    }
}

} // verus!
