use vstd::prelude::*;

verus! {

use pickledb::PickleDb;

use crate::digits::{is_digit_seq, lemma_digits_of_parse, parse_digits};
use crate::store::{kv_keys, kv_lists, kv_strings};
use crate::tasks::{
    done_header, done_lines, done_store_listable, enumerates, line_for, lines_for, open_header,
    open_lines, open_store_listable, task_key,
};

/// Whether `needle` occurs in `hay` as one contiguous run.
pub open spec fn str_has(hay: Seq<char>, needle: Seq<char>) -> bool {
    exists|ofs: int|
        0 <= ofs && ofs + needle.len() <= hay.len() && #[trigger] hay.subrange(
            ofs,
            ofs + needle.len(),
        ) == needle
}

/// An occurrence survives prefixing.
proof fn lemma_prefix_keeps_has(a: Seq<char>, b: Seq<char>, x: Seq<char>)
    requires
        str_has(b, x),
    ensures
        str_has(a + b, x),
{
    let ofs = choose|ofs: int|
        0 <= ofs && ofs + x.len() <= b.len() && #[trigger] b.subrange(ofs, ofs + x.len()) == x;
    assert((a + b).subrange(a.len() + ofs, a.len() + ofs + x.len()) =~= b.subrange(
        ofs,
        ofs + x.len(),
    ));
}

/// An occurrence survives appending.
proof fn lemma_suffix_keeps_has(a: Seq<char>, b: Seq<char>, x: Seq<char>)
    requires
        str_has(a, x),
    ensures
        str_has(a + b, x),
{
    let ofs = choose|ofs: int|
        0 <= ofs && ofs + x.len() <= a.len() && #[trigger] a.subrange(ofs, ofs + x.len()) == x;
    assert((a + b).subrange(ofs, ofs + x.len()) =~= a.subrange(ofs, ofs + x.len()));
}

/// Occurrence is transitive through an occurring segment.
proof fn lemma_has_trans(a: Seq<char>, b: Seq<char>, c: Seq<char>)
    requires
        str_has(a, b),
        str_has(b, c),
    ensures
        str_has(a, c),
{
    let o1 = choose|ofs: int|
        0 <= ofs && ofs + b.len() <= a.len() && #[trigger] a.subrange(ofs, ofs + b.len()) == b;
    let o2 = choose|ofs: int|
        0 <= ofs && ofs + c.len() <= b.len() && #[trigger] b.subrange(ofs, ofs + c.len()) == c;
    assert(a.subrange(o1 + o2, o1 + o2 + c.len()) =~= b.subrange(o2, o2 + c.len()));
}

/// Each entry's line occurs in the rendered open listing.
proof fn lemma_open_lines_has(es: Seq<(Seq<char>, Seq<char>)>, n: int)
    requires
        0 <= n < es.len(),
    ensures
        str_has(open_lines(es), line_for(es[n].0, es[n].1)),
    decreases es.len(),
{
    let line = line_for(es[n].0, es[n].1);
    let pre = open_lines(es.drop_last());
    let tail = line_for(es.last().0, es.last().1);
    if n == es.len() - 1 {
        assert((pre + tail).subrange(pre.len() as int, pre.len() + tail.len() as int) =~= tail);
    } else {
        assert(es.drop_last()[n] == es[n]);
        lemma_open_lines_has(es.drop_last(), n);
        lemma_suffix_keeps_has(pre, tail, line);
    }
}

/// Each entry's block of lines occurs in the rendered completed listing.
proof fn lemma_done_lines_has(es: Seq<(Seq<char>, Seq<Seq<char>>)>, n: int)
    requires
        0 <= n < es.len(),
    ensures
        str_has(done_lines(es), lines_for(es[n].0, es[n].1)),
    decreases es.len(),
{
    let block = lines_for(es[n].0, es[n].1);
    let pre = done_lines(es.drop_last());
    let tail = lines_for(es.last().0, es.last().1);
    if n == es.len() - 1 {
        assert((pre + tail).subrange(pre.len() as int, pre.len() + tail.len() as int) =~= tail);
    } else {
        assert(es.drop_last()[n] == es[n]);
        lemma_done_lines_has(es.drop_last(), n);
        lemma_suffix_keeps_has(pre, tail, block);
    }
}

/// Each recorded description's line occurs in its entry's block of lines.
proof fn lemma_lines_for_has(k: Seq<char>, ds: Seq<Seq<char>>, m: int)
    requires
        0 <= m < ds.len(),
    ensures
        str_has(lines_for(k, ds), line_for(k, ds[m])),
    decreases ds.len(),
{
    let line = line_for(k, ds[m]);
    let pre = lines_for(k, ds.drop_last());
    let tail = line_for(k, ds.last());
    if m == ds.len() - 1 {
        assert((pre + tail).subrange(pre.len() as int, pre.len() + tail.len() as int) =~= tail);
    } else {
        assert(ds.drop_last()[m] == ds[m]);
        lemma_lines_for_has(k, ds.drop_last(), m);
        lemma_suffix_keeps_has(pre, tail, line);
    }
}

/// Law: a key absent from a store's view heads no entry of any arrangement
/// of that view. A removed or never-added task is listed among the open
/// tasks by no rendering, and a task never completed under its key appears
/// in no rendering of the completed store.
pub proof fn lemma_absent_key_unlisted<V>(
    m: Map<Seq<char>, V>,
    k: Seq<char>,
    es: Seq<(Seq<char>, V)>,
)
    requires
        enumerates(es, m),
        !m.contains_key(k),
    ensures
        forall|n: int| 0 <= n < es.len() ==> (#[trigger] es[n]).0 != k,
{
    assert forall|n: int| 0 <= n < es.len() implies (#[trigger] es[n]).0 != k by {
        assert(m.contains_pair(es[n].0, es[n].1));
    }
}

/// Law: after a task is added under a fresh ID with description `desc`,
/// every rendering of the new open store carries its `id. desc` line.
pub proof fn lemma_added_task_listed(
    m: Map<Seq<char>, Seq<char>>,
    id: usize,
    desc: Seq<char>,
    es: Seq<(Seq<char>, Seq<char>)>,
)
    requires
        enumerates(es, m.insert(task_key(id as int), desc)),
    ensures
        str_has(open_header() + open_lines(es), line_for(task_key(id as int), desc)),
{
    let key = task_key(id as int);
    let m2 = m.insert(key, desc);
    assert(m2.contains_key(key));
    let n0 = choose|n: int| 0 <= n < es.len() && (#[trigger] es[n]).0 == key;
    assert(m2.contains_pair(es[n0].0, es[n0].1));
    assert(es[n0].1 == desc);
    lemma_open_lines_has(es, n0);
    lemma_prefix_keeps_has(open_header(), open_lines(es), line_for(key, desc));
}

/// Law: after completing a task whose description was `desc`, every
/// rendering of the new completed store carries its `id. desc` line.
pub proof fn lemma_completed_task_listed(
    d: Map<Seq<char>, Seq<Seq<char>>>,
    id: usize,
    prior: Seq<Seq<char>>,
    desc: Seq<char>,
    es: Seq<(Seq<char>, Seq<Seq<char>>)>,
)
    requires
        enumerates(es, d.insert(task_key(id as int), prior.push(desc))),
    ensures
        str_has(done_header() + done_lines(es), line_for(task_key(id as int), desc)),
{
    let key = task_key(id as int);
    let d2 = d.insert(key, prior.push(desc));
    assert(d2.contains_key(key));
    let n0 = choose|n: int| 0 <= n < es.len() && (#[trigger] es[n]).0 == key;
    assert(d2.contains_pair(es[n0].0, es[n0].1));
    assert(es[n0].1 == prior.push(desc));
    assert(es[n0].1[es[n0].1.len() - 1] == desc);
    lemma_lines_for_has(key, es[n0].1, es[n0].1.len() - 1);
    lemma_done_lines_has(es, n0);
    lemma_has_trans(done_lines(es), lines_for(key, es[n0].1), line_for(key, desc));
    lemma_prefix_keeps_has(done_header(), done_lines(es), line_for(key, desc));
}


/// Law: the key under which a task is stored is the decimal numeral of its
/// ID: it is made of digits and reads back as that ID, so the open listing
/// orders the task by its own number.
pub proof fn lemma_task_key_numeric(id: usize)
    ensures
        is_digit_seq(task_key(id as int)),
        parse_digits(task_key(id as int)) == id as int,
{
    lemma_digits_of_parse(id as nat);
}


/// Law: adding a task under its numeral key keeps the open store listable:
/// after an add that succeeded, a listing is still owed success.
pub proof fn lemma_add_keeps_listable(a: PickleDb, b: PickleDb, id: usize, desc: Seq<char>)
    requires
        open_store_listable(a),
        kv_strings(b) == kv_strings(a).insert(task_key(id as int), desc),
        kv_keys(b) == kv_keys(a).insert(task_key(id as int)),
    ensures
        open_store_listable(b),
{
    lemma_digits_of_parse(id as nat);
    assert forall|k: Seq<char>| #[trigger]
        kv_keys(b).contains(k) implies kv_strings(b).contains_key(k) && is_digit_seq(k)
        && parse_digits(k) <= usize::MAX as int by {
        if k != task_key(id as int) {
            assert(kv_keys(a).contains(k));
        }
    }
}

/// Law: recording a completion under its numeral key keeps the completed
/// store listable: after a completion that succeeded, the completed listing
/// is still owed success.
pub proof fn lemma_complete_keeps_done_listable(
    a: PickleDb,
    b: PickleDb,
    id: usize,
    lst: Seq<Seq<char>>,
)
    requires
        done_store_listable(a),
        kv_lists(b) == kv_lists(a).insert(task_key(id as int), lst),
        kv_keys(b) == kv_keys(a).insert(task_key(id as int)),
    ensures
        done_store_listable(b),
{
    assert forall|k: Seq<char>| #[trigger]
        kv_keys(b).contains(k) implies kv_lists(b).contains_key(k) by {
        if k != task_key(id as int) {
            assert(kv_keys(a).contains(k));
        }
    }
}


/// Law: removing a task under its numeral key keeps the open store
/// listable: after a removal or a completion that succeeded, the open
/// listing is still owed success.
pub proof fn lemma_remove_keeps_listable(a: PickleDb, b: PickleDb, id: usize)
    requires
        open_store_listable(a),
        kv_strings(b) == kv_strings(a).remove(task_key(id as int)),
        kv_keys(b) == kv_keys(a).remove(task_key(id as int)),
    ensures
        open_store_listable(b),
{
    assert forall|k: Seq<char>| #[trigger]
        kv_keys(b).contains(k) implies kv_strings(b).contains_key(k) && is_digit_seq(k)
        && parse_digits(k) <= usize::MAX as int by {
        assert(kv_keys(a).contains(k));
    }
}

} // verus!
