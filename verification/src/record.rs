use vstd::prelude::*;

verus! {

/// Mathematical model of a persisted crisis update record: each string field
/// is viewed as its sequence of characters.
pub struct RecordSpec {
    pub id: u64,
    pub title: Seq<char>,
    pub author: Seq<char>,
    pub description: Seq<char>,
    pub location: Seq<char>,
    pub timestamp: Option<u64>,
    pub created_at: u64,
}

/// Mathematical model of a caller-supplied payload.
pub struct PayloadSpec {
    pub title: Seq<char>,
    pub description: Seq<char>,
    pub location: Seq<char>,
}

/// A persisted crisis update report.
///
/// `id`, `author` and `created_at` are fixed when the record is created;
/// `timestamp` is `None` until the first update and then carries the time of
/// the most recent update.
#[derive(Debug)]
pub struct CrisisUpdate {
    pub id: u64,
    pub title: String,
    pub author: String,
    pub description: String,
    pub location: String,
    pub timestamp: Option<u64>,
    pub created_at: u64,
}

impl View for CrisisUpdate {
    type V = RecordSpec;

    open spec fn view(&self) -> RecordSpec {
        RecordSpec {
            id: self.id,
            title: self.title@,
            author: self.author@,
            description: self.description@,
            location: self.location@,
            timestamp: self.timestamp,
            created_at: self.created_at,
        }
    }
}

impl Clone for CrisisUpdate {
    /// A clone carries the same record.
    fn clone(&self) -> (r: Self)
        ensures
            r@ == self@,
    {
        CrisisUpdate {
            id: self.id,
            title: self.title.clone(),
            author: self.author.clone(),
            description: self.description.clone(),
            location: self.location.clone(),
            timestamp: self.timestamp,
            created_at: self.created_at,
        }
    }
}

/// The caller-supplied fields for creating or updating a record.
#[derive(Debug)]
pub struct CrisisUpdatePayload {
    pub title: String,
    pub description: String,
    pub location: String,
}

impl View for CrisisUpdatePayload {
    type V = PayloadSpec;

    open spec fn view(&self) -> PayloadSpec {
        PayloadSpec {
            title: self.title@,
            description: self.description@,
            location: self.location@,
        }
    }
}

/// Typed outcomes for failed operations.
#[derive(Debug)]
pub enum Error {
    NotFound { msg: String },
    InputValidationFailed { msg: String },
    AuthenticationFailed { msg: String },
}

/// The validation gate: minimum lengths per field, counted in characters.
pub open spec fn valid_payload(p: PayloadSpec) -> bool {
    &&& p.title.len() >= 1
    &&& p.description.len() >= 10
    &&& p.location.len() >= 2
}

/// The message reported for the first field, in declaration order, that
/// breaks its minimum-length rule.
pub open spec fn validation_msg(p: PayloadSpec) -> Seq<char> {
    if p.title.len() < 1 {
        "title must be at least 1 character long"@
    } else if p.description.len() < 10 {
        "description must be at least 10 characters long"@
    } else {
        "location must be at least 2 characters long"@
    }
}

/// Checks the payload against the validation gate; reports the first
/// violation and has no side effects.
pub fn _check_input(payload: &CrisisUpdatePayload) -> (r: Result<(), Error>)
    ensures
        r is Ok <==> valid_payload(payload@),
        r matches Err(e) ==> (e matches Error::InputValidationFailed { msg } && msg@
            == validation_msg(payload@)),
{
    if payload.title.as_str().unicode_len() < 1 {
        Err(
            Error::InputValidationFailed {
                msg: "title must be at least 1 character long".to_owned(),
            },
        )
    } else if payload.description.as_str().unicode_len() < 10 {
        Err(
            Error::InputValidationFailed {
                msg: "description must be at least 10 characters long".to_owned(),
            },
        )
    } else if payload.location.as_str().unicode_len() < 2 {
        Err(
            Error::InputValidationFailed {
                msg: "location must be at least 2 characters long".to_owned(),
            },
        )
    } else {
        Ok(())
    }
}

/// The message reported when a lookup by id finds no record.
pub open spec fn notfound_msg() -> Seq<char> {
    "a crisis update with the given id was not found"@
}

/// The message reported when an operation needs the store to hold at least
/// one record and it holds none.
pub open spec fn empty_store_msg() -> Seq<char> {
    "there are currently no crisis updates stored"@
}

/// The message reported when the store is not empty but no record matches
/// the searched location.
pub open spec fn no_match_location_msg() -> Seq<char> {
    "there are currently no crisis updates stored for the given location"@
}

/// The message reported when the caller is not the record's author.
pub open spec fn auth_msg() -> Seq<char> {
    "caller is not the author of the crisis update"@
}

/// The authorization gate: the caller may mutate a record exactly when it is
/// the record's author (string equality); no side effects.
pub fn _check_if_author(crisis_update: &CrisisUpdate, caller: &String) -> (r: Result<(), Error>)
    ensures
        r is Ok <==> crisis_update@.author == caller@,
        r matches Err(e) ==> (e matches Error::AuthenticationFailed { msg } && msg@ == auth_msg()),
{
    if crisis_update.author.eq(caller) {
        Ok(())
    } else {
        Err(
            Error::AuthenticationFailed {
                msg: "caller is not the author of the crisis update".to_owned(),
            },
        )
    }
}

/// The needle occurs contiguously somewhere in the haystack; every string
/// contains the empty string.
pub open spec fn contains_subseq(h: Seq<char>, n: Seq<char>) -> bool {
    exists|i: int| 0 <= i <= h.len() - n.len() && #[trigger] h.subrange(i, i + n.len()) == n
}

/// Substring containment on strings, counted in characters.
pub fn contains_str(h: &str, n: &str) -> (r: bool)
    ensures
        r == contains_subseq(h@, n@),
{
    let hl: usize = h.unicode_len();
    let nl: usize = n.unicode_len();
    if nl > hl {
        return false;
    }
    let mut i: usize = 0;
    while i <= hl - nl
        invariant
            nl <= hl,
            hl == h@.len(),
            nl == n@.len(),
            i <= hl - nl + 1,
            forall|i2: int| 0 <= i2 < i ==> #[trigger] h@.subrange(i2, i2 + n@.len()) != n@,
        decreases hl - nl + 1 - i,
    {
        let mut ok = true;
        let mut j: usize = 0;
        while j < nl
            invariant
                nl <= hl,
                hl == h@.len(),
                nl == n@.len(),
                i <= hl - nl,
                j <= nl,
                ok <==> (forall|j2: int| 0 <= j2 < j ==> h@[i + j2] == n@[j2]),
            decreases nl - j,
        {
            if h.get_char(i + j) != n.get_char(j) {
                ok = false;
            }
            j += 1;
        }
        if ok {
            proof {
                assert(h@.subrange(i as int, i as int + n@.len()) =~= n@);
            }
            return true;
        }
        proof {
            let j2 = choose|j2: int| 0 <= j2 < nl && h@[i + j2] != n@[j2];
            assert(h@.subrange(i as int, i as int + n@.len())[j2] == h@[i + j2]);
        }
        i += 1;
    }
    proof {
        assert forall|i2: int| 0 <= i2 <= h@.len() - n@.len() implies #[trigger] h@.subrange(
            i2,
            i2 + n@.len(),
        ) != n@ by {
            assert(i2 < i);
        }
    }
    false
}

} // verus!
