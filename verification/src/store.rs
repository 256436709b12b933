use vstd::prelude::*;

verus! {

use vstd::string::StrSliceExecFns;
use vstd::string::StringExecFns;
use crate::date::Date;
use crate::date::date_lt;
use crate::date::spec_parse_date;
use crate::date::parse_date;
use crate::date::lemma_parsed_wf;
use crate::date::lemma_date_order_iff;
use crate::birthday::spec_evaluate;
use crate::birthday::evaluate;
use crate::text::spec_message;
use crate::text::greeting;

/// A stored record: a username and its date of birth as a `YYYY-MM-DD`
/// string.
#[derive(Debug)]
pub struct UsersModel {
    pub username: String,
    pub date_of_birth: String,
}

/// The result of an existence lookup: just the username that was found.
#[derive(Debug)]
pub struct UserNameModel {
    pub username: String,
}

/// The body of a write request: the date of birth to store.
#[derive(Debug)]
pub struct CreateUserSchema {
    pub date_of_birth: String,
}

/// Why an operation was refused.
#[derive(Clone, Copy, Debug, PartialEq, Eq, Structural)]
pub enum ServiceError {
    /// The username is empty or holds a character that is not an ASCII
    /// letter.
    InvalidUsername,
    /// The date of birth is not a `YYYY-MM-DD` calendar date.
    InvalidDate,
    /// The date of birth does not lie strictly before today.
    DateNotInPast,
    /// The backing store failed; nothing is known about the stored state.
    StorageUnavailable,
    /// No record exists for the username.
    NotFound,
}

pub open spec fn is_ascii_alpha(c: char) -> bool {
    (('a' as u32) <= (c as u32) && (c as u32) <= ('z' as u32)) || (('A' as u32) <= (c as u32) && (
    c as u32) <= ('Z' as u32))
}

/// A valid username: non-empty and made of ASCII letters only.
pub open spec fn valid_username(u: Seq<char>) -> bool {
    u.len() > 0 && forall|i: int| 0 <= i < u.len() ==> is_ascii_alpha(u[i])
}

/// Checks a username, exactly as `valid_username` states.
pub fn check_username(u: &str) -> (r: bool)
    ensures
        r == valid_username(u@),
{
    let len = u.unicode_len();
    if len == 0 {
        return false;
    }
    let mut i: usize = 0;
    while i < len
        invariant
            i <= len,
            len == u@.len(),
            forall|j: int| 0 <= j < i ==> is_ascii_alpha(u@[j]),
        decreases len - i,
    {
        let v = u.get_char(i) as u32;
        if !((('a' as u32) <= v && v <= ('z' as u32)) || (('A' as u32) <= v && v <= (
        'Z' as u32))) {
            return false;
        }
        i = i + 1;
    }
    true
}

fn str_eq(a: &str, b: &str) -> (r: bool)
    ensures
        r == (a@ == b@),
{
    let len = a.unicode_len();
    if len != b.unicode_len() {
        return false;
    }
    let mut i: usize = 0;
    while i < len
        invariant
            i <= len,
            len == a@.len() == b@.len(),
            forall|j: int| 0 <= j < i ==> a@[j] == b@[j],
        decreases len - i,
    {
        if !(a.get_char(i) == b.get_char(i)) {
            return false;
        }
        i = i + 1;
    }
    proof {
        assert(a@ =~= b@);
    }
    true
}

/// What write validation owes: the parsed date of birth, or the first
/// failing check — the username, then the date's shape, then its pastness.
pub open spec fn spec_validate(u: Seq<char>, dob: Seq<char>, today: Date) -> Result<
    Date,
    ServiceError,
> {
    if !valid_username(u) {
        Err(ServiceError::InvalidUsername)
    } else if spec_parse_date(dob) is None {
        Err(ServiceError::InvalidDate)
    } else if spec_parse_date(dob)->Some_0.day_number() >= today.day_number() {
        Err(ServiceError::DateNotInPast)
    } else {
        Ok(spec_parse_date(dob)->Some_0)
    }
}

/// Validates a write, exactly as `spec_validate` states: the date of birth
/// is accepted only when it lies strictly before `today`.
pub fn validate(username: &str, date_of_birth: &str, today: &Date) -> (r: Result<
    Date,
    ServiceError,
>)
    requires
        today.wf(),
    ensures
        r == spec_validate(username@, date_of_birth@, *today),
{
    if !check_username(username) {
        return Err(ServiceError::InvalidUsername);
    }
    let d = match parse_date(date_of_birth) {
        Some(d) => d,
        None => {
            return Err(ServiceError::InvalidDate);
        },
    };
    proof {
        lemma_parsed_wf(date_of_birth@);
    }
    if d.number() >= today.number() {
        return Err(ServiceError::DateNotInPast);
    }
    Ok(d)
}

/// A valid username with a valid past date of birth passes validation, and
/// after the write the record is present with that date: a following read
/// cannot report `NotFound`.
pub proof fn lemma_upsert_then_read(
    m: Map<Seq<char>, Seq<char>>,
    u: Seq<char>,
    d: Seq<char>,
    today: Date,
)
    requires
        valid_username(u),
        spec_parse_date(d) is Some,
        spec_parse_date(d)->Some_0.day_number() < today.day_number(),
    ensures
        spec_validate(u, d, today) is Ok,
        m.insert(u, d).contains_key(u),
        m.insert(u, d)[u] == d,
{
}

/// Writing the same record twice leaves exactly the store that one write
/// leaves: still a single record for that username.
pub proof fn lemma_upsert_idempotent(m: Map<Seq<char>, Seq<char>>, u: Seq<char>, d: Seq<char>)
    ensures
        m.insert(u, d).insert(u, d) == m.insert(u, d),
{
    assert(m.insert(u, d).insert(u, d) =~= m.insert(u, d));
}

/// A username holding any character that is not an ASCII letter — a digit, a
/// symbol, whitespace — fails validation, whatever the date and the day.
pub proof fn lemma_nonalpha_username_rejected(u: Seq<char>, i: int, d: Seq<char>, today: Date)
    requires
        0 <= i < u.len(),
        !is_ascii_alpha(u[i]),
    ensures
        spec_validate(u, d, today) == Err::<Date, ServiceError>(ServiceError::InvalidUsername),
{
}

/// A date of birth equal to today or after it fails validation with
/// `DateNotInPast`.
pub proof fn lemma_today_or_future_rejected(u: Seq<char>, d: Seq<char>, today: Date)
    requires
        valid_username(u),
        spec_parse_date(d) is Some,
        !date_lt(spec_parse_date(d)->Some_0, today),
        today.wf(),
    ensures
        spec_validate(u, d, today) == Err::<Date, ServiceError>(ServiceError::DateNotInPast),
{
    lemma_parsed_wf(d);
    lemma_date_order_iff(spec_parse_date(d)->Some_0, today);
}

/// A username never written stays absent: the empty store holds nothing, and
/// a write to a different username does not create it — so a read of it
/// reports `NotFound`.
pub proof fn lemma_unwritten_stays_absent(
    m: Map<Seq<char>, Seq<char>>,
    u: Seq<char>,
    v: Seq<char>,
    d: Seq<char>,
)
    requires
        u != v,
        !m.contains_key(u),
    ensures
        !Map::<Seq<char>, Seq<char>>::empty().contains_key(u),
        !m.insert(v, d).contains_key(u),
{
}

/// The map a record sequence denotes, keyed by username.
pub open spec fn records_map(rs: Seq<UsersModel>) -> Map<Seq<char>, Seq<char>>
    decreases rs.len(),
{
    if rs.len() == 0 {
        Map::empty()
    } else {
        records_map(rs.drop_last()).insert(rs.last().username@, rs.last().date_of_birth@)
    }
}

pub open spec fn unique_usernames(rs: Seq<UsersModel>) -> bool {
    forall|i: int, j: int| 0 <= i < j < rs.len() ==> rs[i].username@ != rs[j].username@
}

proof fn lemma_records_map_domain(rs: Seq<UsersModel>, u: Seq<char>)
    ensures
        records_map(rs).contains_key(u) <==> exists|i: int|
            0 <= i < rs.len() && rs[i].username@ == u,
    decreases rs.len(),
{
    if rs.len() > 0 {
        let prefix = rs.drop_last();
        lemma_records_map_domain(prefix, u);
        if rs.last().username@ == u {
            assert(rs[rs.len() - 1].username@ == u);
        } else {
            if exists|i: int| 0 <= i < rs.len() && rs[i].username@ == u {
                let i = choose|i: int| 0 <= i < rs.len() && rs[i].username@ == u;
                assert(prefix[i].username@ == u);
            }
            if exists|i: int| 0 <= i < prefix.len() && prefix[i].username@ == u {
                let i = choose|i: int| 0 <= i < prefix.len() && prefix[i].username@ == u;
                assert(rs[i].username@ == u);
            }
        }
    }
}

proof fn lemma_records_map_at(rs: Seq<UsersModel>, i: int)
    requires
        unique_usernames(rs),
        0 <= i < rs.len(),
    ensures
        records_map(rs).contains_key(rs[i].username@),
        records_map(rs)[rs[i].username@] == rs[i].date_of_birth@,
    decreases rs.len(),
{
    if i < rs.len() - 1 {
        lemma_records_map_at(rs.drop_last(), i);
    }
}

proof fn lemma_records_map_update(rs: Seq<UsersModel>, i: int, r: UsersModel)
    requires
        unique_usernames(rs),
        0 <= i < rs.len(),
        r.username@ == rs[i].username@,
    ensures
        records_map(rs.update(i, r)) == records_map(rs).insert(r.username@, r.date_of_birth@),
    decreases rs.len(),
{
    let rs2 = rs.update(i, r);
    let u = r.username@;
    let d = r.date_of_birth@;
    if i == rs.len() - 1 {
        assert(rs2.drop_last() =~= rs.drop_last());
        assert(records_map(rs2) == records_map(rs.drop_last()).insert(u, d));
        assert(records_map(rs).insert(u, d) =~= records_map(rs.drop_last()).insert(u, d));
    } else {
        lemma_records_map_update(rs.drop_last(), i, r);
        assert(rs2.drop_last() =~= rs.drop_last().update(i, r));
        assert(rs2.last() == rs.last());
        assert(records_map(rs2) == records_map(rs.drop_last()).insert(u, d).insert(
            rs.last().username@,
            rs.last().date_of_birth@,
        ));
        assert(rs.last().username@ != u);
        assert(records_map(rs.drop_last()).insert(u, d).insert(
            rs.last().username@,
            rs.last().date_of_birth@,
        ) =~= records_map(rs).insert(u, d));
    }
}

proof fn lemma_records_map_len(rs: Seq<UsersModel>)
    requires
        unique_usernames(rs),
    ensures
        records_map(rs).dom().finite(),
        records_map(rs).dom().len() == rs.len(),
    decreases rs.len(),
{
    broadcast use vstd::set::axiom_set_insert_len;

    if rs.len() == 0 {
        assert(records_map(rs).dom() =~= Set::<Seq<char>>::empty());
    } else {
        let prefix = rs.drop_last();
        lemma_records_map_len(prefix);
        lemma_records_map_domain(prefix, rs.last().username@);
        assert(!records_map(prefix).contains_key(rs.last().username@));
        assert(records_map(rs).dom() =~= records_map(prefix).dom().insert(rs.last().username@));
    }
}

/// The single-table store behind the service: at most one record per
/// username, every stored date of birth a parseable calendar date.
#[derive(Debug)]
pub struct UserStore {
    records: Vec<UsersModel>,
}

impl View for UserStore {
    type V = Map<Seq<char>, Seq<char>>;

    closed spec fn view(&self) -> Map<Seq<char>, Seq<char>> {
        records_map(self.records@)
    }
}

impl UserStore {
    /// Usernames are unique and every stored date of birth parses.
    pub closed spec fn wf(&self) -> bool {
        unique_usernames(self.records@) && forall|i: int|
            0 <= i < self.records@.len() ==> spec_parse_date(
                #[trigger] self.records@[i].date_of_birth@,
            ) is Some
    }

    /// An empty store.
    pub fn new() -> (r: UserStore)
        ensures
            r.wf(),
            r@ == Map::<Seq<char>, Seq<char>>::empty(),
    {
        UserStore { records: Vec::new() }
    }

    /// How many records the store holds: one per stored username.
    pub fn count(&self) -> (n: usize)
        requires
            self.wf(),
        ensures
            n == self@.dom().len(),
    {
        proof {
            lemma_records_map_len(self.records@);
        }
        self.records.len()
    }

    fn find_index(&self, username: &str) -> (r: Option<usize>)
        requires
            self.wf(),
        ensures
            r matches Some(i) ==> i < self.records@.len() && self.records@[i as int].username@
                == username@,
            r is None ==> !self@.contains_key(username@),
    {
        let len = self.records.len();
        let mut i: usize = 0;
        while i < len
            invariant
                i <= len,
                len == self.records@.len(),
                forall|j: int| 0 <= j < i ==> self.records@[j].username@ != username@,
            decreases len - i,
        {
            if str_eq(self.records[i].username.as_str(), username) {
                return Some(i);
            }
            i = i + 1;
        }
        proof {
            lemma_records_map_domain(self.records@, username@);
        }
        None
    }

    /// Existence lookup by username, as the write path uses it.
    pub fn find_username(&self, username: &str) -> (r: Option<UserNameModel>)
        requires
            self.wf(),
        ensures
            r is Some <==> self@.contains_key(username@),
            r matches Some(m) ==> m.username@ == username@,
    {
        match self.find_index(username) {
            Some(i) => {
                proof {
                    lemma_records_map_at(self.records@, i as int);
                }
                Some(UserNameModel { username: self.records[i].username.clone() })
            },
            None => None,
        }
    }

    /// Point lookup: the stored record for a username.
    pub fn lookup(&self, username: &str) -> (r: Option<UsersModel>)
        requires
            self.wf(),
        ensures
            r is Some <==> self@.contains_key(username@),
            r matches Some(m) ==> m.username@ == username@ && m.date_of_birth@ == self@[username@]
                && spec_parse_date(m.date_of_birth@) is Some,
    {
        match self.find_index(username) {
            Some(i) => {
                proof {
                    lemma_records_map_at(self.records@, i as int);
                }
                Some(
                    UsersModel {
                        username: self.records[i].username.clone(),
                        date_of_birth: self.records[i].date_of_birth.clone(),
                    },
                )
            },
            None => None,
        }
    }

    /// Validates and stores a record: a new row when the username is absent,
    /// an in-place update of its date of birth when present. On any error
    /// the store is unchanged.
    pub fn upsert(&mut self, username: &str, body: &CreateUserSchema, today: &Date) -> (r: Result<
        (),
        ServiceError,
    >)
        requires
            old(self).wf(),
            today.wf(),
        ensures
            final(self).wf(),
            r is Ok <==> spec_validate(username@, body.date_of_birth@, *today) is Ok,
            r is Ok ==> final(self)@ == old(self)@.insert(username@, body.date_of_birth@),
            r matches Err(e) ==> e == spec_validate(username@, body.date_of_birth@, *today)->Err_0
                && final(self)@ == old(self)@,
    {
        match validate(username, body.date_of_birth.as_str(), today) {
            Ok(_) => {},
            Err(e) => {
                return Err(e);
            },
        }
        let record = UsersModel {
            username: String::from_str(username),
            date_of_birth: body.date_of_birth.clone(),
        };
        match self.find_index(username) {
            Some(i) => {
                proof {
                    lemma_records_map_update(self.records@, i as int, record);
                }
                self.records[i] = record;
            },
            None => {
                proof {
                    lemma_records_map_domain(self.records@, username@);
                    assert(self.records@.push(record).drop_last() =~= self.records@);
                }
                self.records.push(record);
            },
        }
        Ok(())
    }

    /// Serves a read: the greeting for a stored user, or `NotFound` — the
    /// only read-path error this store can produce.
    pub fn read_user(&self, username: &str, today: &Date) -> (r: Result<String, ServiceError>)
        requires
            self.wf(),
            today.wf(),
            today.year < 9999,
        ensures
            r is Ok <==> self@.contains_key(username@),
            r matches Ok(msg) ==> msg@ == spec_message(
                username@,
                spec_evaluate(spec_parse_date(self@[username@])->Some_0, *today),
            ),
            r matches Err(e) ==> e == ServiceError::NotFound,
    {
        match self.lookup(username) {
            None => Err(ServiceError::NotFound),
            Some(m) => {
                let dob = match parse_date(m.date_of_birth.as_str()) {
                    Some(d) => d,
                    None => {
                        return Err(ServiceError::NotFound);
                    },
                };
                proof {
                    lemma_parsed_wf(m.date_of_birth@);
                }
                let st = evaluate(&dob, today);
                Ok(greeting(username, &st))
            },
        }
    }
}

} // verus!
