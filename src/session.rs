//! Sessions: the table shared by all workers, and how a request's cookie is
//! resolved to a session id.
use vstd::prelude::*;

use crate::request::{option_view, HttpRequest};
use crate::text::push_char;

verus! {

/// Session tokens and the data kept for each, each token at most once.
pub struct SessionTable {
    entries: Vec<(String, String)>,
}

spec fn distinct_keys(e: Seq<(String, String)>) -> bool {
    forall|i: int, j: int| 0 <= i < j < e.len() ==> #[trigger] e[i].0@ != #[trigger] e[j].0@
}

spec fn holds_key(e: Seq<(String, String)>, k: Seq<char>) -> bool {
    exists|i: int| 0 <= i < e.len() && #[trigger] e[i].0@ == k
}

spec fn table_of(e: Seq<(String, String)>) -> Map<Seq<char>, Seq<char>> {
    Map::new(
        |k: Seq<char>| holds_key(e, k),
        |k: Seq<char>| e[choose|i: int| 0 <= i < e.len() && #[trigger] e[i].0@ == k].1@,
    )
}

proof fn lemma_entry(e: Seq<(String, String)>, i: int)
    requires
        distinct_keys(e),
        0 <= i < e.len(),
    ensures
        table_of(e).contains_key(e[i].0@),
        table_of(e)[e[i].0@] == e[i].1@,
{
    let k = e[i].0@;
    assert(holds_key(e, k));
    let j = choose|j: int| 0 <= j < e.len() && #[trigger] e[j].0@ == k;
    if j != i {
        if i < j {
            assert(e[i].0@ != e[j].0@);
        } else {
            assert(e[j].0@ != e[i].0@);
        }
    }
}

/// Replacing or appending the entry for `k` keeps keys distinct and sets `k`.
proof fn lemma_store(e: Seq<(String, String)>, f: Seq<(String, String)>, at: int, k: String, v: String)
    requires
        distinct_keys(e),
        0 <= at <= e.len(),
        at < e.len() ==> e[at].0@ == k@ && f == e.update(at, (k, v)),
        at == e.len() ==> !table_of(e).contains_key(k@) && f == e.push((k, v)),
    ensures
        distinct_keys(f),
        table_of(f) == table_of(e).insert(k@, v@),
{
    assert forall|a: int, b: int| 0 <= a < b < f.len() implies #[trigger] f[a].0@
        != #[trigger] f[b].0@ by {
        if b == e.len() {
            if f[a].0@ == k@ {
                lemma_entry(e, a);
            }
        } else if a != at && b != at {
            assert(e[a].0@ != e[b].0@);
        } else {
            assert(e[a].0@ != e[b].0@);
        }
    }
    let old_map = table_of(e).insert(k@, v@);
    assert forall|q: Seq<char>| #[trigger] table_of(f).contains_key(q) == old_map.contains_key(q) by {
        if holds_key(f, q) {
            let j = choose|j: int| 0 <= j < f.len() && #[trigger] f[j].0@ == q;
            if j < e.len() {
                assert(e[j].0@ == q);
            }
        }
        if holds_key(e, q) {
            let j = choose|j: int| 0 <= j < e.len() && #[trigger] e[j].0@ == q;
            assert(f[j].0@ == q);
        }
        if q == k@ {
            assert(f[at].0@ == q);
        }
    }
    assert forall|q: Seq<char>| #[trigger] table_of(f).contains_key(q) implies table_of(f)[q]
        == old_map[q] by {
        let j = choose|j: int| 0 <= j < f.len() && #[trigger] f[j].0@ == q;
        lemma_entry(f, j);
        if j != at {
            lemma_entry(e, j);
        }
    }
    assert(table_of(f) =~= old_map);
}

impl SessionTable {
    #[verifier::type_invariant]
    spec fn keys_distinct(self) -> bool {
        distinct_keys(self.entries@)
    }
}

impl View for SessionTable {
    type V = Map<Seq<char>, Seq<char>>;

    closed spec fn view(&self) -> Map<Seq<char>, Seq<char>> {
        table_of(self.entries@)
    }
}

impl SessionTable {
    pub fn new() -> (r: Self)
        ensures
            r@ == Map::<Seq<char>, Seq<char>>::empty(),
    {
        let r = SessionTable { entries: Vec::new() };
        assert(r@ =~= Map::<Seq<char>, Seq<char>>::empty());
        r
    }

    fn slot(&self, k: &String) -> (r: Option<usize>)
        ensures
            r matches Some(i) ==> i < self.entries@.len() && self.entries@[i as int].0@ == k@,
            r is None ==> !self@.contains_key(k@),
    {
        let mut i: usize = 0;
        while i < self.entries.len()
            invariant
                i <= self.entries@.len(),
                forall|j: int| 0 <= j < i ==> self.entries@[j].0@ != k@,
            decreases self.entries@.len() - i,
        {
            if self.entries[i].0 == *k {
                return Some(i);
            }
            i += 1;
        }
        None
    }

    pub fn contains_key(&self, k: &String) -> (r: bool)
        ensures
            r == self@.contains_key(k@),
    {
        match self.slot(k) {
            Some(i) => {
                proof {
                    use_type_invariant(self);
                    lemma_entry(self.entries@, i as int);
                }
                true
            },
            None => false,
        }
    }

    pub fn get(&self, k: &String) -> (r: Option<&String>)
        ensures
            r is Some <==> self@.contains_key(k@),
            r matches Some(v) ==> v@ == self@[k@],
    {
        match self.slot(k) {
            Some(i) => {
                proof {
                    use_type_invariant(self);
                    lemma_entry(self.entries@, i as int);
                }
                Some(&self.entries[i].1)
            },
            None => None,
        }
    }

    /// `candidate` when it is not a session yet; otherwise `candidate` followed
    /// by enough `-` to be longer than every session token.
    pub fn unused_key(&self, candidate: String) -> (r: String)
        ensures
            !self@.contains_key(r@),
            r@.len() >= candidate@.len(),
            r@.subrange(0, candidate@.len() as int) == candidate@,
            !self@.contains_key(candidate@) ==> r@ == candidate@,
    {
        if !self.contains_key(&candidate) {
            return candidate;
        }
        let ghost c = candidate@;
        let mut longest: usize = 0;
        let mut i: usize = 0;
        while i < self.entries.len()
            invariant
                i <= self.entries@.len(),
                forall|j: int| 0 <= j < i ==> (#[trigger] self.entries@[j]).0@.len() <= longest,
            decreases self.entries@.len() - i,
        {
            let l = self.entries[i].0.as_str().unicode_len();
            if l > longest {
                longest = l;
            }
            i += 1;
        }
        let mut r = candidate;
        let mut n: u128 = r.as_str().unicode_len() as u128;
        while n <= longest as u128
            invariant
                n == r@.len(),
                r@.len() >= c.len(),
                r@.subrange(0, c.len() as int) == c,
            decreases longest as u128 + 1 - n,
        {
            let ghost before = r@;
            push_char(&mut r, '-');
            proof {
                assert(r@.subrange(0, c.len() as int) =~= before.subrange(0, c.len() as int));
            }
            n += 1;
        }
        proof {
            if self@.contains_key(r@) {
                let j = choose|j: int| 0 <= j < self.entries@.len() && #[trigger] self.entries@[j].0@ == r@;
                assert(self.entries@[j].0@.len() <= longest);
            }
        }
        r
    }

    /// Sets the data of session `k`, adding the session if it is new.
    pub fn insert(&mut self, k: String, v: String)
        ensures
            final(self)@ == old(self)@.insert(k@, v@),
    {
        proof {
            use_type_invariant(&*self);
        }
        let ghost e = self.entries@;
        let slot = self.slot(&k);
        let mut entries: Vec<(String, String)> = Vec::new();
        std::mem::swap(&mut entries, &mut self.entries);
        match slot {
            Some(i) => {
                proof {
                    lemma_store(e, e.update(i as int, (k, v)), i as int, k, v);
                }
                entries.set(i, (k, v));
            },
            None => {
                proof {
                    lemma_store(e, e.push((k, v)), e.len() as int, k, v);
                }
                entries.push((k, v));
            },
        }
        self.entries = entries;
    }
}

/// The data recorded for a new session.
pub open spec fn placeholder() -> Seq<char> {
    "user_data"@
}

/// Lower-case hexadecimal digit.
pub open spec fn is_hex_digit(c: char) -> bool {
    (48 <= c as u32 <= 57) || (97 <= c as u32 <= 102)
}

/// The hyphenated text of a version-4 UUID: 32 lower-case hex digits in
/// groups 8-4-4-4-12, version digit `4`, variant digit one of `8 9 a b`.
pub open spec fn is_uuid_v4_text(s: Seq<char>) -> bool {
    &&& s.len() == 36
    &&& forall|i: int|
        0 <= i < 36 ==> if i == 8 || i == 13 || i == 18 || i == 23 {
            #[trigger] s[i] == '-'
        } else {
            is_hex_digit(s[i])
        }
    &&& s[14] == '4'
    &&& (s[19] == '8' || s[19] == '9' || s[19] == 'a' || s[19] == 'b')
}

/// One resolution of `cookie` against the table `before`: a known token is
/// reused and nothing changes; otherwise a token `id` that is not yet a key,
/// starting with the text of a random version-4 UUID, is recorded with the
/// placeholder data.
pub open spec fn resolves(
    before: Map<Seq<char>, Seq<char>>,
    cookie: Option<Seq<char>>,
    after: Map<Seq<char>, Seq<char>>,
    id: Seq<char>,
) -> bool {
    if cookie is Some && before.contains_key(cookie->0) {
        after == before && id == cookie->0
    } else {
        &&& !before.contains_key(id)
        &&& after == before.insert(id, placeholder())
        &&& id.len() >= 36
        &&& is_uuid_v4_text(id.subrange(0, 36))
    }
}

/// Relies on `uuid::Uuid::new_v4` and `Uuid::to_string`: a random
/// identifier with version and variant bits set, in lower-case hyphenated form.
#[verifier::external_body]
fn new_session_id() -> (r: String)
    ensures
        is_uuid_v4_text(r@),
{
    uuid::Uuid::new_v4().to_string()
}

/// The server's shared state.
pub struct Server {
    pub sessions: SessionTable,
}

impl Server {
    pub fn new() -> (r: Self)
        ensures
            r.sessions@ == Map::<Seq<char>, Seq<char>>::empty(),
    {
        Server { sessions: SessionTable::new() }
    }

    /// The session id for `request`: its cookie when that names a known
    /// session, else a new session recorded in the table.
    pub fn handle_cookie(&mut self, request: &HttpRequest) -> (r: String)
        ensures
            resolves(old(self).sessions@, option_view(request.cookie), final(self).sessions@, r@),
    {
        match &request.cookie {
            Some(c) => {
                if self.sessions.contains_key(c) {
                    return c.clone();
                }
            },
            None => {},
        }
        let drawn = new_session_id();
        let ghost d = drawn@;
        let id = self.sessions.unused_key(drawn);
        proof {
            assert(id@.subrange(0, 36) =~= d);
        }
        self.sessions.insert(id.clone(), String::from_str("user_data"));
        id
    }
}

/// Resolving a cookie that names a known session, twice in a row, gives
/// that session both times and leaves the table as it was.
pub proof fn known_session_is_reused(
    t0: Map<Seq<char>, Seq<char>>,
    c: Seq<char>,
    t1: Map<Seq<char>, Seq<char>>,
    id1: Seq<char>,
    t2: Map<Seq<char>, Seq<char>>,
    id2: Seq<char>,
)
    requires
        t0.contains_key(c),
        resolves(t0, Some(c), t1, id1),
        resolves(t1, Some(c), t2, id2),
    ensures
        id1 == c,
        id2 == c,
        t1 == t0,
        t2 == t0,
{
}

/// Whatever the cookie, the session id that comes back is a key of the table
/// right after the call; a session created for a missing or unknown cookie
/// was not a key before and holds the placeholder data.
pub proof fn resolved_session_is_recorded(
    t0: Map<Seq<char>, Seq<char>>,
    cookie: Option<Seq<char>>,
    t1: Map<Seq<char>, Seq<char>>,
    id: Seq<char>,
)
    requires
        resolves(t0, cookie, t1, id),
    ensures
        t1.contains_key(id),
        (cookie is None || !t0.contains_key(cookie->0)) ==> !t0.contains_key(id) && t1[id]
            == placeholder() && t1.dom() == t0.dom().insert(id),
{
}

/// Resolutions run one after another on the table, each on what the one
/// before left (as the table's lock makes concurrent workers do).
pub open spec fn resolution_run(
    tables: Seq<Map<Seq<char>, Seq<char>>>,
    cookie: Option<Seq<char>>,
    ids: Seq<Seq<char>>,
) -> bool {
    &&& tables.len() == ids.len() + 1
    &&& forall|i: int| 0 <= i < ids.len() ==> resolves(tables[i], cookie, #[trigger] tables[i + 1], ids[i])
}

/// When workers resolve the same cookie one after another, no resolution is
/// lost: the table ends with exactly its first keys and every id handed out,
/// and the cookie itself becomes a key only if it was one or was handed out.
pub proof fn serialized_resolutions_keep_every_session(
    tables: Seq<Map<Seq<char>, Seq<char>>>,
    cookie: Option<Seq<char>>,
    ids: Seq<Seq<char>>,
)
    requires
        resolution_run(tables, cookie, ids),
    ensures
        forall|k: Seq<char>|
            #[trigger] tables.last().contains_key(k) <==> (tables[0].contains_key(k) || ids.contains(
                k,
            )),
    decreases ids.len(),
{
    if ids.len() > 0 {
        let n = ids.len() - 1;
        let shorter = tables.drop_last();
        assert(resolution_run(shorter, cookie, ids.drop_last())) by {
            assert forall|i: int| 0 <= i < ids.drop_last().len() implies resolves(
                shorter[i],
                cookie,
                #[trigger] shorter[i + 1],
                ids.drop_last()[i],
            ) by {
                assert(resolves(tables[i], cookie, tables[i + 1], ids[i]));
            }
        }
        serialized_resolutions_keep_every_session(shorter, cookie, ids.drop_last());
        assert(resolves(tables[n], cookie, tables[n + 1], ids[n]));
        assert forall|k: Seq<char>| #[trigger] tables.last().contains_key(k) <==> (
        tables[0].contains_key(k) || ids.contains(k)) by {
            assert(shorter.last() == tables[n]);
            if ids.contains(k) && !ids.drop_last().contains(k) {
                let j = choose|j: int| 0 <= j < ids.len() && ids[j] == k;
                if j < n {
                    assert(ids.drop_last()[j] == k);
                }
            }
            if ids.drop_last().contains(k) {
                let j = choose|j: int| 0 <= j < ids.drop_last().len() && ids.drop_last()[j] == k;
                assert(ids[j] == k);
            }
            if k == ids[n] {
                assert(ids.contains(k));
            }
        }
    }
}

} // verus!
