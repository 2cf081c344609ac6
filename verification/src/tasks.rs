use vstd::prelude::*;

verus! {

use pickledb::PickleDb;

use crate::TaskError;
use crate::digits::{digits_of, fmt_usize, is_digit_seq, parse_digits, parse_usize};
use crate::store::{
    db_exists, get_list, get_string, kv_keys, kv_lists, kv_strings, list_entries, load_db, new_db,
    rem_key, set_list, set_string, string_entries,
};
use vstd::string::StrSliceExecFns;
use vstd::string::StringExecFns;

/// The store key under which the task with this ID is kept.
pub open spec fn task_key(id: int) -> Seq<char> {
    digits_of(id as nat)
}

/// Neither view of the store changed between `a` and `b`, nor its key set.
pub open spec fn store_unchanged(a: PickleDb, b: PickleDb) -> bool {
    kv_strings(a) == kv_strings(b) && kv_lists(a) == kv_lists(b) && kv_keys(a) == kv_keys(b)
}

/// Every key of the store holds a string under a decimal numeral that fits
/// the machine word: the open listing is owed success on such a store.
pub open spec fn open_store_listable(db: PickleDb) -> bool {
    forall|k: Seq<char>| #[trigger]
        kv_keys(db).contains(k) ==> kv_strings(db).contains_key(k) && is_digit_seq(k)
            && parse_digits(k) <= usize::MAX as int
}

/// Every key of the store holds a list of strings: the completed listing is
/// owed success on such a store.
pub open spec fn done_store_listable(db: PickleDb) -> bool {
    forall|k: Seq<char>| #[trigger] kv_keys(db).contains(k) ==> kv_lists(db).contains_key(k)
}

/// Position `i` holds the only colon of `s`.
pub open spec fn unique_colon_at(s: Seq<char>, i: int) -> bool {
    &&& 0 <= i < s.len()
    &&& s[i] == ':'
    &&& forall|j: int| 0 <= j < s.len() && j != i ==> s[j] != ':'
}

/// What an `add` input means: it must consist of a decimal task ID that fits
/// the machine word, exactly one colon, and the description (possibly empty).
pub open spec fn spec_parse_task(s: Seq<char>) -> Option<(int, Seq<char>)> {
    if exists|i: int| unique_colon_at(s, i) {
        let i = choose|i: int| unique_colon_at(s, i);
        if is_digit_seq(s.take(i)) && parse_digits(s.take(i)) <= usize::MAX as int {
            Some((parse_digits(s.take(i)), s.skip(i + 1)))
        } else {
            None
        }
    } else {
        None
    }
}

/// Splits an `add` input into its task ID and description; rejects input
/// without exactly one colon, or whose ID is not a decimal number that fits.
pub fn parse_task(task: &str) -> (r: Result<(usize, String), TaskError>)
    ensures
        match r {
            Ok(p) => spec_parse_task(task@) == Some((p.0 as int, p.1@)),
            Err(e) => e == TaskError::InvalidFormat && spec_parse_task(task@) is None,
        },
{
    let len = task.unicode_len();
    let mut i: usize = 0;
    let mut colon: usize = 0;
    let mut count: usize = 0;
    while i < len
        invariant
            len == task@.len(),
            0 <= i <= len,
            count <= 1,
            count == 0 ==> forall|j: int| 0 <= j < i ==> task@[j] != ':',
            count == 1 ==> colon < i && task@[colon as int] == ':' && forall|j: int|
                0 <= j < i && j != colon ==> task@[j] != ':',
        decreases len - i,
    {
        if task.get_char(i) == ':' {
            if count == 1 {
                proof {
                    assert forall|i0: int| !unique_colon_at(task@, i0) by {
                        if unique_colon_at(task@, i0) {
                            assert(task@[colon as int] == ':');
                            assert(task@[i as int] == ':');
                        }
                    }
                }
                return Err(TaskError::InvalidFormat);
            }
            colon = i;
            count = 1;
        }
        i = i + 1;
    }
    if count == 0 {
        proof {
            assert forall|i0: int| !unique_colon_at(task@, i0) by {
                if 0 <= i0 < task@.len() {
                    assert(task@[i0] != ':');
                }
            }
        }
        return Err(TaskError::InvalidFormat);
    }
    proof {
        assert(unique_colon_at(task@, colon as int));
        let w = choose|i0: int| unique_colon_at(task@, i0);
        assert(task@[w] == ':');
        assert(w == colon as int);
    }
    let id_str = task.substring_char(0, colon);
    let desc_str = task.substring_char(colon + 1, len);
    proof {
        assert(id_str@ =~= task@.take(colon as int));
        assert(desc_str@ =~= task@.skip(colon as int + 1));
    }
    match parse_usize(id_str) {
        Some(id) => Ok((id, String::from_str(desc_str))),
        None => Err(TaskError::InvalidFormat),
    }
}

/// Adds the task written as `id:description` to the open store: rejects
/// malformed input with no change; rejects an ID already present with no
/// change; otherwise inserts the pair under the ID's decimal key and
/// persists it.
pub fn add_open(db: &mut PickleDb, task: &str) -> (r: Result<(), TaskError>)
    ensures
        match spec_parse_task(task@) {
            None => r == Err::<(), TaskError>(TaskError::InvalidFormat) && store_unchanged(
                *final(db),
                *old(db),
            ),
            Some(p) => {
                let key = task_key(p.0);
                if kv_strings(*old(db)).contains_key(key) {
                    r == Err::<(), TaskError>(TaskError::AlreadyExists) && store_unchanged(
                        *final(db),
                        *old(db),
                    )
                } else {
                    &&& r is Ok ==> kv_strings(*final(db)) == kv_strings(*old(db)).insert(key, p.1)
                        && kv_lists(*final(db)) == kv_lists(*old(db)).remove(key) && kv_keys(
                        *final(db),
                    ) == kv_keys(*old(db)).insert(key)
                    &&& r is Err ==> r == Err::<(), TaskError>(TaskError::Storage)
                        && store_unchanged(*final(db), *old(db))
                }
            },
        },
{
    let parsed = match parse_task(task) {
        Ok(p) => p,
        Err(e) => {
            return Err(e);
        },
    };
    let key = fmt_usize(parsed.0);
    match get_string(db, key.as_str()) {
        Some(_) => Err(TaskError::AlreadyExists),
        None => set_string(db, key.as_str(), parsed.1.as_str()),
    }
}

/// Completes the open task with this ID: removes it from the open store and
/// appends its description to the completed store's list for the same key,
/// starting a new list if none is recorded. Fails with `NotFound`, changing
/// nothing, when the ID is not an open task.
pub fn complete_task(todo: &mut PickleDb, done: &mut PickleDb, id: usize) -> (r: Result<
    (),
    TaskError,
>)
    ensures
        ({
            let key = task_key(id as int);
            if !kv_strings(*old(todo)).contains_key(key) {
                r == Err::<(), TaskError>(TaskError::NotFound) && store_unchanged(
                    *final(todo),
                    *old(todo),
                ) && store_unchanged(*final(done), *old(done))
            } else {
                let desc = kv_strings(*old(todo))[key];
                let prior = if kv_lists(*old(done)).contains_key(key) {
                    kv_lists(*old(done))[key]
                } else {
                    Seq::empty()
                };
                &&& r is Ok ==> kv_strings(*final(todo)) == kv_strings(*old(todo)).remove(key)
                    && kv_lists(*final(todo)) == kv_lists(*old(todo)).remove(key) && kv_keys(
                    *final(todo),
                ) == kv_keys(*old(todo)).remove(key) && kv_lists(*final(done)) == kv_lists(
                    *old(done),
                ).insert(key, prior.push(desc)) && kv_strings(*final(done)) == kv_strings(
                    *old(done),
                ).remove(key) && kv_keys(*final(done)) == kv_keys(*old(done)).insert(key)
                &&& r is Err ==> r == Err::<(), TaskError>(TaskError::Storage) && (store_unchanged(
                    *final(todo),
                    *old(todo),
                ) || (kv_strings(*final(todo)) == kv_strings(*old(todo)).remove(key) && kv_lists(
                    *final(todo),
                ) == kv_lists(*old(todo)).remove(key) && kv_keys(*final(todo)) == kv_keys(
                    *old(todo),
                ).remove(key))) && store_unchanged(*final(done), *old(done))
            }
        }),
{
    let key = fmt_usize(id);
    let desc = match get_string(todo, key.as_str()) {
        Some(d) => d,
        None => {
            return Err(TaskError::NotFound);
        },
    };
    match rem_key(todo, key.as_str()) {
        Ok(_) => (),
        Err(e) => {
            return Err(e);
        },
    }
    let mut done_tasks = match get_list(done, key.as_str()) {
        Some(l) => l,
        None => Vec::new(),
    };
    proof {
        assert(key@ == task_key(id as int));
        if !kv_lists(*old(done)).contains_key(task_key(id as int)) {
            assert(done_tasks.deep_view() =~~= Seq::<Seq<char>>::empty());
        }
    }
    let ghost prior = done_tasks.deep_view();
    done_tasks.push(desc);
    proof {
        assert(done_tasks.deep_view() =~~= prior.push(
            kv_strings(*old(todo))[task_key(id as int)],
        ));
    }
    set_list(done, key.as_str(), &done_tasks)
}

/// Removes the open task with this ID permanently; the completed store is
/// not touched. Fails with `NotFound`, changing nothing, when the ID is not
/// an open task.
pub fn remove_open(db: &mut PickleDb, id: usize) -> (r: Result<(), TaskError>)
    ensures
        ({
            let key = task_key(id as int);
            if !kv_strings(*old(db)).contains_key(key) {
                r == Err::<(), TaskError>(TaskError::NotFound) && store_unchanged(
                    *final(db),
                    *old(db),
                )
            } else {
                &&& r is Ok ==> kv_strings(*final(db)) == kv_strings(*old(db)).remove(key)
                    && kv_lists(*final(db)) == kv_lists(*old(db)).remove(key) && kv_keys(
                    *final(db),
                ) == kv_keys(*old(db)).remove(key)
                &&& r is Err ==> r == Err::<(), TaskError>(TaskError::Storage) && (store_unchanged(
                    *final(db),
                    *old(db),
                ) || (kv_strings(*final(db)) == kv_strings(*old(db)).remove(key) && kv_lists(
                    *final(db),
                ) == kv_lists(*old(db)).remove(key) && kv_keys(*final(db)) == kv_keys(
                    *old(db),
                ).remove(key)))
            }
        }),
{
    let key = fmt_usize(id);
    match get_string(db, key.as_str()) {
        Some(_) => {
            match rem_key(db, key.as_str()) {
                Ok(_) => Ok(()),
                Err(e) => Err(e),
            }
        },
        None => Err(TaskError::NotFound),
    }
}

/// `es` lists the map `m` whole: every listed pair is in `m`, no key is
/// listed twice, and every key of `m` is listed.
pub open spec fn enumerates<V>(es: Seq<(Seq<char>, V)>, m: Map<Seq<char>, V>) -> bool {
    &&& forall|i: int| 0 <= i < es.len() ==> m.contains_pair((#[trigger] es[i]).0, es[i].1)
    &&& forall|i: int, j: int|
        0 <= i < j < es.len() ==> (#[trigger] es[i]).0 != (#[trigger] es[j]).0
    &&& forall|k: Seq<char>| #[trigger]
        m.contains_key(k) ==> exists|i: int| 0 <= i < es.len() && (#[trigger] es[i]).0 == k
}

/// One listing line: the stored key, a dot and a space, the description,
/// and a line break.
pub open spec fn line_for(k: Seq<char>, desc: Seq<char>) -> Seq<char> {
    k + ". "@ + desc + "\n"@
}

/// The heading of the open-task listing.
pub open spec fn open_header() -> Seq<char> {
    "You have the following tasks:\n"@
}

/// The heading of the completed-task listing.
pub open spec fn done_header() -> Seq<char> {
    "You have completed the following tasks:\n"@
}

/// The lines of the open-task listing, one per entry, in the entries' order.
pub open spec fn open_lines(es: Seq<(Seq<char>, Seq<char>)>) -> Seq<char>
    decreases es.len(),
{
    if es.len() == 0 {
        Seq::empty()
    } else {
        open_lines(es.drop_last()) + line_for(es.last().0, es.last().1)
    }
}

/// The lines for one completed-task entry, one per recorded description,
/// in their recorded order.
pub open spec fn lines_for(k: Seq<char>, ds: Seq<Seq<char>>) -> Seq<char>
    decreases ds.len(),
{
    if ds.len() == 0 {
        Seq::empty()
    } else {
        lines_for(k, ds.drop_last()) + line_for(k, ds.last())
    }
}

/// The lines of the completed-task listing, in the entries' order.
pub open spec fn done_lines(es: Seq<(Seq<char>, Seq<Seq<char>>)>) -> Seq<char>
    decreases es.len(),
{
    if es.len() == 0 {
        Seq::empty()
    } else {
        done_lines(es.drop_last()) + lines_for(es.last().0, es.last().1)
    }
}

/// Every listed key is a decimal number that fits the machine word.
pub open spec fn keys_numeric(es: Seq<(Seq<char>, Seq<char>)>) -> bool {
    forall|i: int|
        0 <= i < es.len() ==> is_digit_seq((#[trigger] es[i]).0) && parse_digits(es[i].0)
            <= usize::MAX as int
}

/// The entries are ordered by ascending numeric key.
pub open spec fn sorted_by_id(es: Seq<(Seq<char>, Seq<char>)>) -> bool {
    forall|i: int, j: int|
        0 <= i < j < es.len() ==> parse_digits((#[trigger] es[i]).0) <= parse_digits(
            (#[trigger] es[j]).0,
        )
}

/// No two entries share a key.
pub open spec fn distinct_keys<V>(es: Seq<(Seq<char>, V)>) -> bool {
    forall|i: int, j: int|
        0 <= i < j < es.len() ==> (#[trigger] es[i]).0 != (#[trigger] es[j]).0
}

/// The output reads as an open-task listing: the heading, then lines for a
/// duplicate-free run of decimal keys in ascending numeric order.
pub open spec fn well_formed_open_listing(out: Seq<char>) -> bool {
    exists|es: Seq<(Seq<char>, Seq<char>)>|
        #![auto]
        distinct_keys(es) && keys_numeric(es) && sorted_by_id(es) && out == open_header()
            + open_lines(es)
}

/// The output reads as a completed-task listing: the heading, then the line
/// blocks of a duplicate-free run of entries.
pub open spec fn well_formed_done_listing(out: Seq<char>) -> bool {
    exists|es: Seq<(Seq<char>, Seq<Seq<char>>)>|
        #![auto]
        distinct_keys(es) && out == done_header() + done_lines(es)
}

/// The key and description views of a run of parsed entries.
pub open spec fn triple_views(s: Seq<(usize, String, String)>) -> Seq<(Seq<char>, Seq<char>)> {
    Seq::new(s.len(), |i: int| (s[i].1@, s[i].2@))
}

/// In a run ordered at each adjacent pair, any earlier element is at most
/// any later one.
proof fn lemma_adjacent_le(s: Seq<(usize, String, String)>, a: int, b: int)
    requires
        forall|n: int| 0 <= n && n + 1 < s.len() ==> (#[trigger] s[n]).0 <= s[n + 1].0,
        0 <= a <= b < s.len(),
    ensures
        s[a].0 <= s[b].0,
    decreases b - a,
{
    if a < b {
        lemma_adjacent_le(s, a, b - 1);
    }
}

/// Renders the open tasks, ordered by ascending numeric ID, as a heading
/// followed by one `id. description` line per task. Succeeds whenever every
/// stored key holds a string and is a decimal number that fits the machine
/// word; fails with `Storage` otherwise.
#[verifier::loop_isolation(false)]
#[verifier::rlimit(60)]
pub fn open_listing(db: &PickleDb) -> (r: Result<String, TaskError>)
    ensures
        r matches Ok(out) ==> exists|es: Seq<(Seq<char>, Seq<char>)>|
            #[trigger] enumerates(es, kv_strings(*db)) && keys_numeric(es) && sorted_by_id(es)
                && out@ == open_header() + open_lines(es),
        r matches Err(e) ==> e == TaskError::Storage,
        open_store_listable(*db) ==> r is Ok,
{
    let entries = match string_entries(db) {
        Some(v) => v,
        None => {
            proof {
                let k0 = choose|k: Seq<char>|
                    #[trigger] kv_keys(*db).contains(k) && !kv_strings(*db).contains_key(k);
                assert(kv_keys(*db).contains(k0));
            }
            return Err(TaskError::Storage);
        },
    };
    let mut sorted: Vec<(usize, String, String)> = Vec::new();
    let ghost mut perm: Seq<int> = Seq::empty();
    let ghost mut iperm: Seq<int> = Seq::empty();
    let mut i: usize = 0;
    while i < entries.len()
        invariant
            0 <= i <= entries@.len(),
            perm.len() == sorted@.len(),
            iperm.len() == i,
            forall|n: int|
                0 <= n < perm.len() ==> 0 <= #[trigger] perm[n] < i && sorted@[n].1
                    == entries@[perm[n]].0 && sorted@[n].2 == entries@[perm[n]].1,
            forall|n: int|
                0 <= n < sorted@.len() ==> is_digit_seq((#[trigger] sorted@[n]).1@) && (
                sorted@[n].0 as int) == parse_digits(sorted@[n].1@),
            forall|j: int|
                0 <= j < i ==> 0 <= #[trigger] iperm[j] < perm.len() && perm[iperm[j]] == j,
            forall|n: int| 0 <= n < perm.len() ==> iperm[#[trigger] perm[n]] == n,
            forall|n: int|
                0 <= n && n + 1 < sorted@.len() ==> (#[trigger] sorted@[n]).0 <= sorted@[n + 1].0,
        decreases entries@.len() - i,
    {
        let key = entries[i].0.clone();
        let val = entries[i].1.clone();
        let id = match parse_usize(key.as_str()) {
            Some(id) => id,
            None => {
                proof {
                    assert(kv_strings(*db).contains_pair(
                        entries@[i as int].0@,
                        entries@[i as int].1@,
                    ));
                    assert(kv_strings(*db).contains_key(entries@[i as int].0@));
                }
                return Err(TaskError::Storage);
            },
        };
        let mut p: usize = 0;
        while p < sorted.len() && sorted[p].0 <= id
            invariant
                0 <= p <= sorted@.len(),
                forall|n: int| 0 <= n < p ==> (#[trigger] sorted@[n]).0 <= id,
            decreases sorted@.len() - p,
        {
            p = p + 1;
        }
        let ghost old_sorted = sorted@;
        let ghost old_perm = perm;
        let t = (id, key, val);
        sorted.insert(p, t);
        proof {
            old_sorted.insert_ensures(p as int, t);
            old_perm.insert_ensures(p as int, i as int);
            perm = old_perm.insert(p as int, i as int);
            iperm = iperm.map_values(
                |x: int|
                    if x >= p {
                        x + 1
                    } else {
                        x
                    },
            ).push(p as int);
            assert forall|n: int|
                0 <= n < perm.len() implies 0 <= #[trigger] perm[n] < i + 1 && sorted@[n].1
                == entries@[perm[n]].0 && sorted@[n].2 == entries@[perm[n]].1 by {
                if n < p {
                    assert(perm[n] == old_perm[n] && sorted@[n] == old_sorted[n]);
                } else if n == p {
                    assert(perm[n] == i && sorted@[n] == t);
                } else {
                    assert(perm[n] == old_perm[n - 1] && sorted@[n] == old_sorted[n - 1]);
                }
            }
            assert forall|j: int|
                0 <= j < i + 1 implies 0 <= #[trigger] iperm[j] < perm.len() && perm[iperm[j]]
                == j by {
                if j < i {
                    let q = old_perm.len();
                    if iperm[j] < p {
                        assert(perm[iperm[j]] == old_perm[iperm[j]]);
                    } else {
                        assert(perm[iperm[j]] == old_perm[iperm[j] - 1]);
                    }
                } else {
                    assert(iperm[j] == p && perm[p as int] == i);
                }
            }
            assert forall|n: int| 0 <= n < perm.len() implies iperm[#[trigger] perm[n]]
                == n by {
                if n < p {
                    assert(perm[n] == old_perm[n]);
                } else if n > p {
                    assert(perm[n] == old_perm[n - 1]);
                }
            }
            assert forall|n: int|
                0 <= n && n + 1 < sorted@.len() implies (#[trigger] sorted@[n]).0 <= sorted@[n
                + 1].0 by {
                if n + 1 < p {
                    assert(sorted@[n] == old_sorted[n] && sorted@[n + 1] == old_sorted[n + 1]);
                } else if n + 1 == p {
                    assert(sorted@[n] == old_sorted[n] && sorted@[n + 1] == t);
                } else if n == p {
                    assert(sorted@[n] == t && sorted@[n + 1] == old_sorted[n]);
                } else {
                    assert(sorted@[n] == old_sorted[n - 1] && sorted@[n + 1] == old_sorted[n]);
                }
            }
        }
        i = i + 1;
    }
    let ghost es = triple_views(sorted@);
    proof {
        assert forall|n: int, m: int|
            0 <= n < m < sorted@.len() implies (#[trigger] sorted@[n]).0 <= (
        #[trigger] sorted@[m]).0 by {
            lemma_adjacent_le(sorted@, n, m);
        }
        assert forall|n: int| 0 <= n < es.len() implies kv_strings(*db).contains_pair(
            (#[trigger] es[n]).0,
            es[n].1,
        ) by {
            assert(kv_strings(*db).contains_pair(entries@[perm[n]].0@, entries@[perm[n]].1@));
        }
        assert forall|n: int, m: int|
            0 <= n < m < es.len() implies (#[trigger] es[n]).0 != (#[trigger] es[m]).0 by {
            assert(iperm[perm[n]] == n && iperm[perm[m]] == m);
            assert(perm[n] != perm[m]);
            if perm[n] < perm[m] {
                assert(entries@[perm[n]].0@ != entries@[perm[m]].0@);
            } else {
                assert(entries@[perm[m]].0@ != entries@[perm[n]].0@);
            }
        }
        assert forall|k: Seq<char>| #[trigger]
            kv_strings(*db).contains_key(k) implies exists|n: int|
            0 <= n < es.len() && (#[trigger] es[n]).0 == k by {
            let j0 = choose|j: int| 0 <= j < entries@.len() && (#[trigger] entries@[j]).0@ == k;
            let n0 = iperm[j0];
            assert(0 <= n0 < es.len() && es[n0].0 == entries@[j0].0@);
        }
        assert(enumerates(es, kv_strings(*db)));
        assert(keys_numeric(es));
        assert(sorted_by_id(es));
    }
    let mut out = String::from_str("You have the following tasks:\n");
    let mut n: usize = 0;
    while n < sorted.len()
        invariant
            0 <= n <= sorted@.len(),
            out@ == open_header() + open_lines(es.take(n as int)),
        decreases sorted@.len() - n,
    {
        out.append(sorted[n].1.as_str());
        out.append(". ");
        out.append(sorted[n].2.as_str());
        out.append("\n");
        proof {
            assert(es.take(n + 1).drop_last() =~= es.take(n as int));
            assert(es.take(n + 1).last() == es[n as int]);
            assert(out@ =~= open_header() + open_lines(es.take(n + 1)));
        }
        n = n + 1;
    }
    proof {
        assert(es.take(sorted@.len() as int) =~= es);
    }
    Ok(out)
}

/// Renders the completed tasks as a heading followed by one
/// `id. description` line for every recorded completion; the completions of
/// one ID keep their recorded order, and the order between IDs follows the
/// store's iteration, which is unspecified. Succeeds whenever every stored
/// key holds a list of strings; fails with `Storage` otherwise.
#[verifier::loop_isolation(false)]
pub fn done_listing(db: &PickleDb) -> (r: Result<String, TaskError>)
    ensures
        r matches Ok(out) ==> exists|es: Seq<(Seq<char>, Seq<Seq<char>>)>|
            #[trigger] enumerates(es, kv_lists(*db)) && out@ == done_header() + done_lines(es),
        r matches Err(e) ==> e == TaskError::Storage,
        done_store_listable(*db) ==> r is Ok,
{
    let entries = match list_entries(db) {
        Some(v) => v,
        None => {
            proof {
                let k0 = choose|k: Seq<char>|
                    #[trigger] kv_keys(*db).contains(k) && !kv_lists(*db).contains_key(k);
                assert(kv_keys(*db).contains(k0));
            }
            return Err(TaskError::Storage);
        },
    };
    let ghost ev: Seq<(Seq<char>, Seq<Seq<char>>)> = Seq::new(
        entries@.len(),
        |i: int| (entries@[i].0@, entries@[i].1.deep_view()),
    );
    let mut out = String::from_str("You have completed the following tasks:\n");
    let mut n: usize = 0;
    while n < entries.len()
        invariant
            0 <= n <= entries@.len(),
            out@ == done_header() + done_lines(ev.take(n as int)),
        decreases entries@.len() - n,
    {
        let mut m: usize = 0;
        while m < entries[n].1.len()
            invariant
                0 <= n < entries@.len(),
                0 <= m <= entries@[n as int].1.len(),
                out@ == done_header() + done_lines(ev.take(n as int)) + lines_for(
                    ev[n as int].0,
                    ev[n as int].1.take(m as int),
                ),
            decreases entries@[n as int].1@.len() - m,
        {
            out.append(entries[n].0.as_str());
            out.append(". ");
            out.append(entries[n].1[m].as_str());
            out.append("\n");
            proof {
                assert(ev[n as int].1.take(m + 1).drop_last() =~= ev[n as int].1.take(m as int));
                assert(ev[n as int].1.take(m + 1).last() == ev[n as int].1[m as int]);
                assert(out@ =~= done_header() + done_lines(ev.take(n as int)) + lines_for(
                    ev[n as int].0,
                    ev[n as int].1.take(m + 1),
                ));
            }
            m = m + 1;
        }
        proof {
            assert(ev[n as int].1.take(entries@[n as int].1.len() as int) =~= ev[n as int].1);
            assert(ev.take(n + 1).drop_last() =~= ev.take(n as int));
            assert(ev.take(n + 1).last() == ev[n as int]);
            assert(out@ =~= done_header() + done_lines(ev.take(n + 1)));
        }
        n = n + 1;
    }
    proof {
        assert(ev.take(entries@.len() as int) =~= ev);
        assert forall|i: int| 0 <= i < ev.len() implies kv_lists(*db).contains_pair(
            (#[trigger] ev[i]).0,
            ev[i].1,
        ) by {
            assert(kv_lists(*db).contains_pair(entries@[i].0@, entries@[i].1.deep_view()));
        }
        assert forall|i: int, j: int|
            0 <= i < j < ev.len() implies (#[trigger] ev[i]).0 != (#[trigger] ev[j]).0 by {
            assert(entries@[i].0@ != entries@[j].0@);
        }
        assert forall|k: Seq<char>| #[trigger]
            kv_lists(*db).contains_key(k) implies exists|i: int|
            0 <= i < ev.len() && (#[trigger] ev[i]).0 == k by {
            let i0 = choose|i: int| 0 <= i < entries@.len() && (#[trigger] entries@[i]).0@ == k;
            assert(0 <= i0 < ev.len() && ev[i0].0 == k);
        }
        assert(enumerates(ev, kv_lists(*db)));
    }
    Ok(out)
}

/// Opens the open-task store by name, creating it when its file is absent,
/// and adds the task written as `id:description`.
pub fn add_task(db_name: &str, task: &str) -> (r: Result<(), TaskError>)
    ensures
        r is Ok ==> spec_parse_task(task@) is Some,
        r matches Err(e) ==> match e {
            TaskError::InvalidFormat => spec_parse_task(task@) is None,
            TaskError::AlreadyExists => spec_parse_task(task@) is Some,
            TaskError::NotFound => false,
            TaskError::Storage => true,
        },
{
    let mut db = if db_exists(db_name) {
        match load_db(db_name) {
            Ok(d) => d,
            Err(e) => {
                return Err(e);
            },
        }
    } else {
        new_db(db_name)
    };
    add_open(&mut db, task)
}

/// Opens both stores by name, creating the completed store when its file is
/// absent, and completes the task with this ID.
pub fn task_done(todo_db_name: &str, task_id: usize, done_db_name: &str) -> (r: Result<
    (),
    TaskError,
>)
    ensures
        r matches Err(e) ==> e == TaskError::NotFound || e == TaskError::Storage,
{
    let mut todo_db = match load_db(todo_db_name) {
        Ok(d) => d,
        Err(e) => {
            return Err(e);
        },
    };
    let mut done_db = if db_exists(done_db_name) {
        match load_db(done_db_name) {
            Ok(d) => d,
            Err(e) => {
                return Err(e);
            },
        }
    } else {
        new_db(done_db_name)
    };
    complete_task(&mut todo_db, &mut done_db, task_id)
}

/// Lists the open tasks of the named store, ordered by ascending numeric
/// ID; a missing store file is reported in the listing itself.
pub fn list_all_tasks(db_name: &str) -> (r: Result<String, TaskError>)
    ensures
        r matches Err(e) ==> e == TaskError::Storage,
        r matches Ok(out) ==> out@ == "Database doesn't exist"@ || well_formed_open_listing(out@),
{
    if db_exists(db_name) {
        let db = match load_db(db_name) {
            Ok(d) => d,
            Err(e) => {
                return Err(e);
            },
        };
        match open_listing(&db) {
            Ok(out) => {
                proof {
                    let es = choose|es: Seq<(Seq<char>, Seq<char>)>|
                        #[trigger] enumerates(es, kv_strings(db)) && keys_numeric(es)
                            && sorted_by_id(es) && out@ == open_header() + open_lines(es);
                    assert(distinct_keys(es));
                    assert(well_formed_open_listing(out@));
                }
                Ok(out)
            },
            Err(e) => Err(e),
        }
    } else {
        Ok(String::from_str("Database doesn't exist"))
    }
}

/// Lists the completed tasks of the named store; a missing store file is
/// reported in the listing itself.
pub fn list_done_tasks(db_name: &str) -> (r: Result<String, TaskError>)
    ensures
        r matches Err(e) ==> e == TaskError::Storage,
        r matches Ok(out) ==> out@ == "'done.db' Database doesn't exist or no tasks completed yet"@
            || well_formed_done_listing(out@),
{
    if db_exists(db_name) {
        let db = match load_db(db_name) {
            Ok(d) => d,
            Err(e) => {
                return Err(e);
            },
        };
        match done_listing(&db) {
            Ok(out) => {
                proof {
                    let es = choose|es: Seq<(Seq<char>, Seq<Seq<char>>)>|
                        #[trigger] enumerates(es, kv_lists(db)) && out@ == done_header()
                            + done_lines(es);
                    assert(distinct_keys(es));
                    assert(well_formed_done_listing(out@));
                }
                Ok(out)
            },
            Err(e) => Err(e),
        }
    } else {
        Ok(String::from_str("'done.db' Database doesn't exist or no tasks completed yet"))
    }
}

/// Opens the open-task store by name and removes the task with this ID.
pub fn remove_task(db_name: &str, task_id: usize) -> (r: Result<(), TaskError>)
    ensures
        r matches Err(e) ==> e == TaskError::NotFound || e == TaskError::Storage,
{
    let mut db = match load_db(db_name) {
        Ok(d) => d,
        Err(e) => {
            return Err(e);
        },
    };
    remove_open(&mut db, task_id)
}

} // verus!\n