//! Directory listings: entries, the case-insensitive sort key, and the
//! construction of the ordered, filtered listing for one directory view.

use vstd::prelude::*;
use vstd::string::StrSliceExecFns;
use vstd::string::StringExecFns;

verus! {

/// One visible item of a directory view: a base name and whether the
/// filesystem reports it as a directory.
pub struct Entry {
    pub name: String,
    pub is_dir: bool,
}

/// Mathematical value of an [`Entry`]: the name as a character sequence.
pub ghost struct EntryV {
    pub name: Seq<char>,
    pub is_dir: bool,
}

impl View for Entry {
    type V = EntryV;

    open spec fn view(&self) -> EntryV {
        EntryV { name: self.name@, is_dir: self.is_dir }
    }
}

/// The views of a sequence of entries.
pub open spec fn views(s: Seq<Entry>) -> Seq<EntryV> {
    s.map_values(|e: Entry| e@)
}

/// The key that `str::to_lowercase` yields for a name, as UTF-8 bytes.
/// Listings are ordered by this key, byte-wise.
pub uninterp spec fn lower_key_of(s: Seq<char>) -> Seq<u8>;

/// Relies on `str::to_lowercase` (and `String::into_bytes` to expose the
/// bytes): the key depends on the characters of the name alone.
#[verifier::external_body]
fn lower_key(s: &String) -> (r: Vec<u8>)
    ensures
        r@ == lower_key_of(s@),
{
    s.as_str().to_lowercase().into_bytes()
}

/// Byte-wise lexicographic order on sort keys.
pub open spec fn key_le(a: Seq<u8>, b: Seq<u8>) -> bool
    decreases a.len(),
{
    if a.len() == 0 {
        true
    } else if b.len() == 0 {
        false
    } else if a[0] < b[0] {
        true
    } else if a[0] > b[0] {
        false
    } else {
        key_le(a.drop_first(), b.drop_first())
    }
}

/// `key_le` is total: any two keys compare one way or the other.
pub proof fn lemma_key_le_total(a: Seq<u8>, b: Seq<u8>)
    ensures
        key_le(a, b) || key_le(b, a),
    decreases a.len(),
{
    if a.len() != 0 && b.len() != 0 && a[0] == b[0] {
        lemma_key_le_total(a.drop_first(), b.drop_first());
    }
}

/// `key_le` is transitive.
pub proof fn lemma_key_le_trans(a: Seq<u8>, b: Seq<u8>, c: Seq<u8>)
    requires
        key_le(a, b),
        key_le(b, c),
    ensures
        key_le(a, c),
    decreases a.len(),
{
    if a.len() != 0 && b.len() != 0 && c.len() != 0 && a[0] == b[0] && b[0] == c[0] {
        lemma_key_le_trans(a.drop_first(), b.drop_first(), c.drop_first());
    }
}

/// Compares two keys; true when `a` comes no later than `b`.
fn key_le_exec(a: &Vec<u8>, b: &Vec<u8>) -> (r: bool)
    ensures
        r == key_le(a@, b@),
{
    let mut i: usize = 0;
    proof {
        assert(a@.skip(0) =~= a@);
        assert(b@.skip(0) =~= b@);
    }
    loop
        invariant
            i <= a.len(),
            i <= b.len(),
            key_le(a@, b@) == key_le(a@.skip(i as int), b@.skip(i as int)),
        decreases a@.len() - i,
    {
        if i == a.len() {
            proof {
                assert(a@.skip(i as int).len() == 0);
            }
            return true;
        }
        if i == b.len() {
            proof {
                assert(b@.skip(i as int).len() == 0);
                assert(a@.skip(i as int).len() != 0);
            }
            return false;
        }
        let x = a[i];
        let y = b[i];
        proof {
            assert(a@.skip(i as int)[0] == a@[i as int]);
            assert(b@.skip(i as int)[0] == b@[i as int]);
        }
        if x < y {
            return true;
        }
        if x > y {
            return false;
        }
        proof {
            assert(a@.skip(i as int).drop_first() =~= a@.skip(i as int + 1));
            assert(b@.skip(i as int).drop_first() =~= b@.skip(i as int + 1));
        }
        i = i + 1;
    }
}

/// The sort key of an entry view.
pub open spec fn entry_key(e: EntryV) -> Seq<u8> {
    lower_key_of(e.name)
}

/// Where a stable insertion places `e` in an already ordered sequence:
/// after every element whose key comes no later than `e`'s.
pub open spec fn insert_by_key(s: Seq<EntryV>, e: EntryV) -> Seq<EntryV>
    decreases s.len(),
{
    if s.len() == 0 {
        seq![e]
    } else if key_le(entry_key(s[0]), entry_key(e)) {
        seq![s[0]] + insert_by_key(s.drop_first(), e)
    } else {
        seq![e] + s
    }
}

/// Stable sort by `entry_key`: each element is inserted, in order, into the
/// sorted sequence of those before it.
pub open spec fn sort_by_key(s: Seq<EntryV>) -> Seq<EntryV>
    decreases s.len(),
{
    if s.len() == 0 {
        Seq::empty()
    } else {
        insert_by_key(sort_by_key(s.drop_last()), s.last())
    }
}

/// An insertion at the first position whose key exceeds `e`'s is exactly
/// `insert_by_key`.
proof fn lemma_insert_at(s: Seq<EntryV>, e: EntryV, j: int)
    requires
        0 <= j <= s.len(),
        forall|k: int| 0 <= k < j ==> key_le(entry_key(#[trigger] s[k]), entry_key(e)),
        j < s.len() ==> !key_le(entry_key(s[j]), entry_key(e)),
    ensures
        insert_by_key(s, e) =~= s.subrange(0, j) + seq![e] + s.subrange(j, s.len() as int),
    decreases j,
{
    if j == 0 {
        if s.len() == 0 {
            assert(insert_by_key(s, e) =~= s.subrange(0, 0) + seq![e] + s.subrange(0, 0));
        } else {
            assert(!key_le(entry_key(s[0]), entry_key(e)));
        }
    } else {
        assert(key_le(entry_key(s[0]), entry_key(e)));
        lemma_insert_at(s.drop_first(), e, j - 1);
        assert(s.drop_first().subrange(0, j - 1) =~= s.subrange(1, j));
        assert(s.drop_first().subrange(j - 1, s.drop_first().len() as int) =~= s.subrange(
            j,
            s.len() as int,
        ));
    }
}

/// Finds the first position in `out` whose key exceeds `key_e`.
fn insert_pos(out: &Vec<Entry>, key_e: &Vec<u8>) -> (j: usize)
    ensures
        j <= out@.len(),
        forall|k: int|
            0 <= k < j ==> key_le(lower_key_of(#[trigger] out@[k].name@), key_e@),
        j < out@.len() ==> !key_le(lower_key_of(out@[j as int].name@), key_e@),
{
    let mut j: usize = 0;
    loop
        invariant
            j <= out.len(),
            forall|k: int|
                0 <= k < j ==> key_le(lower_key_of(#[trigger] out@[k].name@), key_e@),
        decreases out@.len() - j,
    {
        if j == out.len() {
            return j;
        }
        let key_j = lower_key(&out[j].name);
        if !key_le_exec(&key_j, key_e) {
            return j;
        }
        j = j + 1;
    }
}

fn insert_sorted(out: Vec<Entry>, e: Entry) -> (r: Vec<Entry>)
    ensures
        views(r@) == insert_by_key(views(out@), e@),
{
    let key_e = lower_key(&e.name);
    let j = insert_pos(&out, &key_e);
    proof {
        assert(forall|k: int|
            0 <= k < views(out@).len() ==> entry_key(#[trigger] views(out@)[k]) == lower_key_of(
                out@[k].name@,
            ));
        lemma_insert_at(views(out@), e@, j as int);
    }
    let ghost old_out = out@;
    let mut r = out;
    r.insert(j, e);
    proof {
        assert(views(r@) =~= views(old_out).subrange(0, j as int) + seq![e@] + views(
            old_out,
        ).subrange(j as int, views(old_out).len() as int));
    }
    r
}

/// Sorts entries in place by their case-folded name key; the sort is stable.
fn sort_entries(v: &mut Vec<Entry>)
    ensures
        views(final(v)@) == sort_by_key(views(old(v)@)),
{
    let ghost full = old(v)@;
    let mut out: Vec<Entry> = Vec::new();
    let ghost mut done: int = 0;
    proof {
        assert(views(full).subrange(0, 0) =~= Seq::<EntryV>::empty());
        assert(views(out@) =~= Seq::<EntryV>::empty());
    }
    while v.len() > 0
        invariant
            0 <= done <= full.len(),
            v@ =~= full.subrange(done, full.len() as int),
            views(out@) == sort_by_key(views(full).subrange(0, done)),
        decreases full.len() - done,
    {
        let ghost before = v@;
        let e = v.remove(0);
        proof {
            assert(e == full[done]);
            assert(views(full).subrange(0, done + 1).drop_last() =~= views(full).subrange(0, done));
            assert(views(full).subrange(0, done + 1).last() == e@);
            assert(v@ =~= before.remove(0));
            assert(v@ =~= full.subrange(done + 1, full.len() as int));
        }
        out = insert_sorted(out, e);
        proof {
            done = done + 1;
        }
    }
    proof {
        assert(done == full.len());
        assert(views(full).subrange(0, done) =~= views(full));
    }
    *v = out;
}

/// Whether an entry is shown under the given hidden-file policy: everything
/// when hidden files are shown; otherwise everything whose name does not
/// start with a dot, plus the synthetic parent entry `..`.
pub open spec fn entry_visible(e: EntryV, show_hidden: bool) -> bool {
    show_hidden || e.name == ".."@ || e.name.len() == 0 || e.name[0] != '.'
}

/// The view of the synthetic parent entry.
pub open spec fn parent_v() -> EntryV {
    EntryV { name: ".."@, is_dir: true }
}

/// The visible directories of a raw enumeration, in enumeration order.
pub open spec fn dirs_of(s: Seq<EntryV>, show_hidden: bool) -> Seq<EntryV> {
    s.filter(|e: EntryV| entry_visible(e, show_hidden) && e.is_dir)
}

/// The visible files of a raw enumeration, in enumeration order.
pub open spec fn files_of(s: Seq<EntryV>, show_hidden: bool) -> Seq<EntryV> {
    s.filter(|e: EntryV| entry_visible(e, show_hidden) && !e.is_dir)
}

/// The listing shown for one directory: the synthetic parent entry when the
/// directory has one, then the visible directories, then the visible files,
/// both groups sorted case-insensitively by name.
pub open spec fn listing_model(raw: Seq<EntryV>, has_parent: bool, show_hidden: bool) -> Seq<
    EntryV,
> {
    let body = sort_by_key(dirs_of(raw, show_hidden)) + sort_by_key(files_of(raw, show_hidden));
    if has_parent {
        seq![parent_v()] + body
    } else {
        body
    }
}

/// Appending one element to the input extends the two filtered groups by
/// exactly that element, when it belongs there.
proof fn lemma_partition_step(prefix: Seq<EntryV>, e: EntryV, show_hidden: bool)
    ensures
        dirs_of(prefix.push(e), show_hidden) == if entry_visible(e, show_hidden) && e.is_dir {
            dirs_of(prefix, show_hidden).push(e)
        } else {
            dirs_of(prefix, show_hidden)
        },
        files_of(prefix.push(e), show_hidden) == if entry_visible(e, show_hidden) && !e.is_dir {
            files_of(prefix, show_hidden).push(e)
        } else {
            files_of(prefix, show_hidden)
        },
{
    reveal(Seq::filter);
    assert(prefix.push(e).drop_last() =~= prefix);
    assert(prefix.push(e).last() == e);
}

/// Ordered by the case-folded name key.
pub open spec fn sorted_by_key(s: Seq<EntryV>) -> bool {
    forall|i: int, j: int|
        0 <= i < j < s.len() ==> key_le(entry_key(#[trigger] s[i]), entry_key(#[trigger] s[j]))
}

/// Where `insert_by_key` places the new element.
spec fn ins_pos(s: Seq<EntryV>, e: EntryV) -> int
    decreases s.len(),
{
    if s.len() == 0 {
        0
    } else if key_le(entry_key(s[0]), entry_key(e)) {
        1 + ins_pos(s.drop_first(), e)
    } else {
        0
    }
}

proof fn lemma_ins_pos_props(s: Seq<EntryV>, e: EntryV)
    ensures
        0 <= ins_pos(s, e) <= s.len(),
        forall|k: int|
            0 <= k < ins_pos(s, e) ==> key_le(entry_key(#[trigger] s[k]), entry_key(e)),
        ins_pos(s, e) < s.len() ==> !key_le(entry_key(s[ins_pos(s, e)]), entry_key(e)),
    decreases s.len(),
{
    if s.len() != 0 && key_le(entry_key(s[0]), entry_key(e)) {
        lemma_ins_pos_props(s.drop_first(), e);
        assert(forall|k: int|
            1 <= k < ins_pos(s, e) ==> s.drop_first()[k - 1] == #[trigger] s[k]);
    }
}

/// Inserting into an ordered sequence keeps it ordered, adds exactly the new
/// element, and grows the length by one.
proof fn lemma_insert_props(s: Seq<EntryV>, e: EntryV)
    requires
        sorted_by_key(s),
    ensures
        insert_by_key(s, e).len() == s.len() + 1,
        sorted_by_key(insert_by_key(s, e)),
        insert_by_key(s, e).to_multiset() == s.to_multiset().insert(e),
{
    broadcast use vstd::seq_lib::to_multiset_insert;

    let j = ins_pos(s, e);
    lemma_ins_pos_props(s, e);
    lemma_insert_at(s, e, j);
    let r = insert_by_key(s, e);
    assert(r =~= s.insert(j, e));
    assert forall|a: int, b: int| 0 <= a < b < r.len() implies key_le(
        entry_key(r[a]),
        entry_key(r[b]),
    ) by {
        if a == j {
            if j < s.len() {
                lemma_key_le_total(entry_key(s[j]), entry_key(e));
                assert(key_le(entry_key(e), entry_key(s[j])));
                if b > j + 1 {
                    assert(r[b] == s[b - 1]);
                    assert(key_le(entry_key(s[j]), entry_key(s[b - 1])));
                    lemma_key_le_trans(entry_key(e), entry_key(s[j]), entry_key(r[b]));
                }
            }
        } else if b == j {
            assert(key_le(entry_key(r[a]), entry_key(e)));
        }
    }
}

/// Sorting yields an ordered permutation of its input.
pub proof fn lemma_sort_props(s: Seq<EntryV>)
    ensures
        sort_by_key(s).len() == s.len(),
        sorted_by_key(sort_by_key(s)),
        sort_by_key(s).to_multiset() == s.to_multiset(),
    decreases s.len(),
{
    broadcast use vstd::seq_lib::to_multiset_build;

    if s.len() == 0 {
        assert(sort_by_key(s) =~= s);
    } else {
        lemma_sort_props(s.drop_last());
        lemma_insert_props(sort_by_key(s.drop_last()), s.last());
        assert(s =~= s.drop_last().push(s.last()));
        assert(s.drop_last().push(s.last()).to_multiset() == s.drop_last().to_multiset().insert(
            s.last(),
        ));
    }
}

/// A filtered sequence holds only elements of the original, all satisfying
/// the predicate.
proof fn lemma_filter_sub<A>(s: Seq<A>, pred: spec_fn(A) -> bool, x: A)
    requires
        s.filter(pred).contains(x),
    ensures
        s.contains(x),
        pred(x),
    decreases s.len(),
{
    reveal(Seq::filter);
    if s.len() > 0 {
        if pred(s.last()) && x == s.last() {
            assert(s[s.len() - 1] == x);
        } else {
            let f = s.filter(pred);
            let fd = s.drop_last().filter(pred);
            if pred(s.last()) {
                let k = choose|k: int| 0 <= k < f.len() && f[k] == x;
                assert(k < f.len() - 1);
                assert(fd[k] == x);
            }
            lemma_filter_sub(s.drop_last(), pred, x);
            let k = choose|k: int| 0 <= k < s.drop_last().len() && s.drop_last()[k] == x;
            assert(s[k] == x);
        }
    }
}

/// The listing is laid out as the synthetic parent entry (when present),
/// then the visible directories ordered by case-folded name, then the
/// visible files ordered the same way.
pub proof fn lemma_listing_ordered(raw: Seq<EntryV>, has_parent: bool, show_hidden: bool)
    ensures
        ({
            let l = listing_model(raw, has_parent, show_hidden);
            let off: int = if has_parent { 1 } else { 0 };
            let nd = sort_by_key(dirs_of(raw, show_hidden)).len() as int;
            &&& l.len() == off + nd + sort_by_key(files_of(raw, show_hidden)).len()
            &&& (has_parent ==> l[0] == parent_v())
            &&& (forall|i: int| off <= i < off + nd ==> (#[trigger] l[i]).is_dir)
            &&& (forall|i: int| off + nd <= i < l.len() ==> !(#[trigger] l[i]).is_dir)
            &&& (forall|i: int, j: int|
                off <= i < j < off + nd ==> key_le(
                    entry_key(#[trigger] l[i]),
                    entry_key(#[trigger] l[j]),
                ))
            &&& (forall|i: int, j: int|
                off + nd <= i < j < l.len() ==> key_le(
                    entry_key(#[trigger] l[i]),
                    entry_key(#[trigger] l[j]),
                ))
        }),
{
    broadcast use vstd::seq_lib::group_to_multiset_ensures;

    let l = listing_model(raw, has_parent, show_hidden);
    let off: int = if has_parent { 1int } else { 0int };
    let dirs = dirs_of(raw, show_hidden);
    let files = files_of(raw, show_hidden);
    let sd = sort_by_key(dirs);
    let sf = sort_by_key(files);
    lemma_sort_props(dirs);
    lemma_sort_props(files);
    assert forall|i: int| off <= i < off + sd.len() implies (#[trigger] l[i]).is_dir by {
        assert(l[i] == sd[i - off]);
        assert(sd.contains(sd[i - off]));
        assert(sd.to_multiset().count(l[i]) > 0);
        assert(dirs.to_multiset().count(l[i]) > 0);
        assert(dirs.contains(l[i]));
        lemma_filter_sub(raw, |e: EntryV| entry_visible(e, show_hidden) && e.is_dir, l[i]);
    }
    assert forall|i: int| off + sd.len() <= i < l.len() implies !(#[trigger] l[i]).is_dir by {
        assert(l[i] == sf[i - off - sd.len()]);
        assert(sf.contains(sf[i - off - sd.len()]));
        assert(sf.to_multiset().count(l[i]) > 0);
        assert(files.to_multiset().count(l[i]) > 0);
        assert(files.contains(l[i]));
        lemma_filter_sub(raw, |e: EntryV| entry_visible(e, show_hidden) && !e.is_dir, l[i]);
    }
    assert forall|i: int, j: int| off <= i < j < off + sd.len() implies key_le(
        entry_key(#[trigger] l[i]),
        entry_key(#[trigger] l[j]),
    ) by {
        assert(l[i] == sd[i - off] && l[j] == sd[j - off]);
    }
    assert forall|i: int, j: int| off + sd.len() <= i < j < l.len() implies key_le(
        entry_key(#[trigger] l[i]),
        entry_key(#[trigger] l[j]),
    ) by {
        assert(l[i] == sf[i - off - sd.len()] && l[j] == sf[j - off - sd.len()]);
    }
}

/// A dot-named entry other than `..` stands in the listing exactly when
/// hidden files are shown and the raw enumeration holds it.
pub proof fn lemma_hidden_filter(raw: Seq<EntryV>, has_parent: bool, show_hidden: bool, e: EntryV)
    requires
        e.name.len() > 0,
        e.name[0] == '.',
        e.name != ".."@,
    ensures
        listing_model(raw, has_parent, show_hidden).contains(e) <==> (show_hidden && raw.contains(
            e,
        )),
{
    broadcast use vstd::seq_lib::group_to_multiset_ensures;

    let l = listing_model(raw, has_parent, show_hidden);
    let dirs = dirs_of(raw, show_hidden);
    let files = files_of(raw, show_hidden);
    let sd = sort_by_key(dirs);
    let sf = sort_by_key(files);
    lemma_sort_props(dirs);
    lemma_sort_props(files);
    let dir_pred = |ev: EntryV| entry_visible(ev, show_hidden) && ev.is_dir;
    let file_pred = |ev: EntryV| entry_visible(ev, show_hidden) && !ev.is_dir;
    if l.contains(e) {
        let k = choose|k: int| 0 <= k < l.len() && l[k] == e;
        if has_parent && k == 0 {
            assert(parent_v().name == ".."@);
            assert(false);
        } else {
            let off: int = if has_parent { 1int } else { 0int };
            if k < off + sd.len() {
                assert(sd[k - off] == e);
                assert(sd.contains(e));
                assert(sd.to_multiset().count(e) > 0);
                assert(dirs.to_multiset().count(e) > 0);
                assert(dirs.contains(e));
                lemma_filter_sub(raw, dir_pred, e);
            } else {
                assert(sf[k - off - sd.len()] == e);
                assert(sf.contains(e));
                assert(sf.to_multiset().count(e) > 0);
                assert(files.to_multiset().count(e) > 0);
                assert(files.contains(e));
                lemma_filter_sub(raw, file_pred, e);
            }
            assert(entry_visible(e, show_hidden));
            assert(show_hidden && raw.contains(e));
        }
    }
    if show_hidden && raw.contains(e) {
        let k = choose|k: int| 0 <= k < raw.len() && raw[k] == e;
        if e.is_dir {
            broadcast use vstd::seq_lib::group_filter_ensures;
            assert(dirs.contains(e));
            assert(dirs.to_multiset().count(e) > 0);
            assert(sd.to_multiset().count(e) > 0);
            assert(sd.contains(e));
            let m = choose|m: int| 0 <= m < sd.len() && sd[m] == e;
            let off: int = if has_parent { 1int } else { 0int };
            assert(l[off + m] == e);
        } else {
            broadcast use vstd::seq_lib::group_filter_ensures;
            assert(files.contains(e));
            assert(files.to_multiset().count(e) > 0);
            assert(sf.to_multiset().count(e) > 0);
            assert(sf.contains(e));
            let m = choose|m: int| 0 <= m < sf.len() && sf[m] == e;
            let off: int = if has_parent { 1int } else { 0int };
            assert(l[off + sd.len() + m] == e);
        }
        assert(l.contains(e));
    }
}

/// Whether the entry is shown under the given hidden-file policy.
pub fn is_visible(e: &Entry, show_hidden: bool) -> (r: bool)
    ensures
        r == entry_visible(e@, show_hidden),
{
    if show_hidden {
        return true;
    }
    let n = e.name.as_str();
    let len = n.unicode_len();
    if len == 0 {
        return true;
    }
    if n.get_char(0) != '.' {
        return true;
    }
    proof {
        reveal_strlit("..");
    }
    if len == 2 && n.get_char(1) == '.' {
        proof {
            assert(e.name@ =~= ".."@);
        }
        return true;
    }
    proof {
        assert(e.name@ != ".."@);
    }
    false
}

/// Builds the listing for one directory view from the raw enumeration the
/// filesystem gave: hidden entries are dropped unless shown, directories and
/// files are sorted separately by case-folded name, and a synthetic `..`
/// entry is put first when the directory has a parent.
pub fn build_listing(mut raw: Vec<Entry>, has_parent: bool, show_hidden: bool) -> (r: Vec<Entry>)
    ensures
        views(r@) == listing_model(views(raw@), has_parent, show_hidden),
{
    let ghost full = views(raw@);
    let mut dirs: Vec<Entry> = Vec::new();
    let mut files: Vec<Entry> = Vec::new();
    let ghost mut done: int = 0;
    proof {
        reveal(Seq::filter);
        assert(full.subrange(0, 0) =~= Seq::<EntryV>::empty());
        assert(views(dirs@) =~= Seq::<EntryV>::empty());
        assert(views(files@) =~= Seq::<EntryV>::empty());
    }
    while raw.len() > 0
        invariant
            0 <= done <= full.len(),
            views(raw@) =~= full.subrange(done, full.len() as int),
            views(dirs@) == dirs_of(full.subrange(0, done), show_hidden),
            views(files@) == files_of(full.subrange(0, done), show_hidden),
        decreases full.len() - done,
    {
        let ghost before = raw@;
        let e = raw.remove(0);
        proof {
            assert(views(before) == full.subrange(done, full.len() as int));
            assert(views(before).len() == before.len());
            assert(done < full.len());
            assert(views(before)[0] == before[0]@);
            assert(full.subrange(done, full.len() as int)[0] == full[done]);
            assert(e@ == full[done]);
            assert(views(raw@) =~= views(before).drop_first());
            assert(views(raw@) =~= full.subrange(done + 1, full.len() as int));
            assert(full.subrange(0, done + 1) =~= full.subrange(0, done).push(full[done]));
            lemma_partition_step(full.subrange(0, done), e@, show_hidden);
        }
        let ghost dirs_before = views(dirs@);
        let ghost files_before = views(files@);
        if is_visible(&e, show_hidden) {
            if e.is_dir {
                dirs.push(e);
                proof {
                    assert(views(dirs@) =~= dirs_before.push(full[done]));
                }
            } else {
                files.push(e);
                proof {
                    assert(views(files@) =~= files_before.push(full[done]));
                }
            }
        }
        proof {
            done = done + 1;
        }
    }
    proof {
        assert(full.subrange(0, done) =~= full);
    }
    sort_entries(&mut dirs);
    sort_entries(&mut files);
    let mut out: Vec<Entry> = Vec::new();
    if has_parent {
        proof {
            reveal_strlit("..");
        }
        let parent = Entry { name: String::from_str(".."), is_dir: true };
        proof {
            assert(parent@ =~= parent_v());
        }
        out.push(parent);
    }
    let ghost head = views(out@);
    out.append(&mut dirs);
    out.append(&mut files);
    proof {
        assert(views(out@) =~= head + sort_by_key(dirs_of(full, show_hidden)) + sort_by_key(
            files_of(full, show_hidden),
        ));
        assert(views(out@) =~= listing_model(full, has_parent, show_hidden));
    }
    out
}

} // verus!
