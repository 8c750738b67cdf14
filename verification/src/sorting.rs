//! Ordering pictures: the key by which each order ranks a picture, and a stable sort.
use vstd::prelude::*;
use crate::entry::Entry;
use crate::order::Order;
use crate::paths::{original_defined, original_path};
use crate::rank::rank_index;
use crate::text::{chars_of, seq_less};

verus! {

/// Lexicographic order of keys; a proper prefix comes first.
pub open spec fn key_less(a: Seq<i128>, b: Seq<i128>) -> bool
    decreases a.len(),
{
    if a.len() == 0 {
        b.len() > 0
    } else if b.len() == 0 {
        false
    } else if a[0] != b[0] {
        a[0] < b[0]
    } else {
        key_less(a.drop_first(), b.drop_first())
    }
}

pub proof fn lemma_key_less_transitive(a: Seq<i128>, b: Seq<i128>, c: Seq<i128>)
    requires
        key_less(a, b),
        key_less(b, c),
    ensures
        key_less(a, c),
    decreases a.len(),
{
    if a.len() > 0 && b.len() > 0 && c.len() > 0 && a[0] == b[0] && b[0] == c[0] {
        lemma_key_less_transitive(a.drop_first(), b.drop_first(), c.drop_first());
    }
}

pub proof fn lemma_key_less_total(a: Seq<i128>, b: Seq<i128>)
    ensures
        a == b || key_less(a, b) || key_less(b, a),
        !(key_less(a, b) && key_less(b, a)),
        !key_less(a, a),
    decreases a.len(),
{
    if a.len() == 0 && b.len() == 0 {
        assert(a =~= b);
    } else if a.len() > 0 && b.len() > 0 {
        lemma_key_less_total(a.drop_first(), b.drop_first());
        if a[0] == b[0] && a.drop_first() == b.drop_first() {
            assert forall|i: int| 0 <= i < a.len() implies a[i] == b[i] by {
                if i > 0 {
                    assert(a[i] == a.drop_first()[i - 1]);
                    assert(b[i] == b.drop_first()[i - 1]);
                }
            }
            assert(a =~= b);
        }
    }
    if a.len() > 0 {
        lemma_key_less_total(a.drop_first(), a.drop_first());
    }
}

/// The key of a character sequence: code points moved up by one, closed by a zero, so that
/// keys of strings compare as the strings do, and a string key followed by more keys is
/// ranked by the string first.
pub open spec fn encode(s: Seq<char>) -> Seq<i128> {
    Seq::new(
        s.len() + 1,
        |i: int|
            if i < s.len() {
                ((s[i] as u32) as i128 + 1) as i128
            } else {
                0i128
            },
    )
}

/// The path by which pictures are named in orders: that of the picture, not its thumbnail.
pub open spec fn entry_path(e: Entry) -> Seq<char> {
    original_path(e.file_path@)
}

/// Whether an order ranks pictures by their file path.
pub open spec fn uses_path(o: Order) -> bool {
    o == Order::Label || o == Order::Colors || o == Order::Name || o == Order::Value
}

/// The key by which an order ranks a picture:
/// label (labelled first, by label) then path; colour count then path; palette; time of
/// change; path; file size; rank (three stars first) then path.
pub open spec fn order_key(e: Entry, o: Order) -> Seq<i128> {
    match o {
        Order::Label => (if e.image_data.label@.len() > 0 {
            seq![0i128] + encode(e.image_data.label@)
        } else {
            seq![1i128]
        }) + encode(entry_path(e)),
        Order::Colors => seq![e.image_data.colors as i128] + encode(entry_path(e)),
        Order::Palette => Seq::new(9, |i: int| e.image_data.palette@[i] as i128),
        Order::Date => seq![e.modified_time],
        Order::Name => encode(entry_path(e)),
        Order::Size => seq![e.file_size as i128],
        Order::Value => seq![rank_index(e.image_data.rank) as i128] + encode(entry_path(e)),
        Order::Random => Seq::empty(),
    }
}

/// Whether the picture at index `i` of `s` comes before the one at index `j` in order `o`:
/// by key, and between equal keys by index, as a stable sort keeps them.
pub open spec fn comes_before(s: Seq<Entry>, o: Order, i: int, j: int) -> bool {
    key_less(order_key(s[i], o), order_key(s[j], o)) || (order_key(s[i], o) == order_key(
        s[j],
        o,
    ) && i < j)
}

/// Whether the index `m` occurs in `p`.
pub open spec fn lists(p: Seq<int>, m: int) -> bool {
    exists|k: int| 0 <= k < p.len() && p[k] == m
}

/// Whether the index `m` occurs among the first `n` indices of `v`.
spec fn lists_first(v: Seq<usize>, n: int, m: int) -> bool {
    exists|k: int| 0 <= k < n && v[k] == m
}

/// Whether `t` is `s` stably sorted by the keys of order `o`: `t` lists each picture of `s`
/// once, through a sequence `p` of indices, and every picture comes before the ones listed
/// after it.
pub open spec fn sorted_as(s: Seq<Entry>, t: Seq<Entry>, o: Order, p: Seq<int>) -> bool {
    &&& p.len() == s.len()
    &&& t.len() == s.len()
    &&& forall|k: int| 0 <= k < p.len() ==> 0 <= #[trigger] p[k] < s.len() && t[k] == s[p[k]]
    &&& forall|m: int| 0 <= m < s.len() ==> #[trigger] lists(p, m)
    &&& forall|k: int, l: int| 0 <= k < l < p.len() ==> comes_before(s, o, p[k], p[l])
}

/// Whether the paths that an order reads are defined on every picture of a list.
pub open spec fn paths_defined(s: Seq<Entry>, o: Order) -> bool {
    uses_path(o) ==> forall|i: int| 0 <= i < s.len() ==> original_defined(#[trigger] s[i].file_path@)
}

pub(crate) fn push_encoded(v: &mut Vec<i128>, s: &[char])
    ensures
        final(v)@ == old(v)@ + encode(s@),
{
    let mut i: usize = 0;
    while i < s.len()
        invariant
            i <= s.len(),
            v@ == old(v)@ + encode(s@).take(i as int),
        decreases s.len() - i,
    {
        let c: u32 = s[i] as u32;
        v.push(c as i128 + 1);
        i = i + 1;
        assert(v@ =~= old(v)@ + encode(s@).take(i as int));
    }
    v.push(0);
    assert(v@ =~= old(v)@ + encode(s@));
}

/// The key by which order `o` ranks a picture.
pub(crate) fn entry_key(e: &Entry, o: Order) -> (k: Vec<i128>)
    requires
        uses_path(o) ==> original_defined(e.file_path@),
    ensures
        k@ == order_key(*e, o),
{
    let mut k: Vec<i128> = Vec::new();
    match o {
        Order::Label => {
            let label = chars_of(e.image_data.label.as_str());
            if label.len() > 0 {
                k.push(0);
                push_encoded(&mut k, label.as_slice());
            } else {
                k.push(1);
            }
            let path = chars_of(e.original_file_path().as_str());
            push_encoded(&mut k, path.as_slice());
        },
        Order::Colors => {
            k.push(e.image_data.colors as i128);
            let path = chars_of(e.original_file_path().as_str());
            push_encoded(&mut k, path.as_slice());
        },
        Order::Palette => {
            let mut i: usize = 0;
            while i < 9
                invariant
                    i <= 9,
                    k@ == Seq::new(i as nat, |j: int| e.image_data.palette@[j] as i128),
                decreases 9 - i,
            {
                k.push(e.image_data.palette[i] as i128);
                i = i + 1;
                assert(k@ =~= Seq::new(i as nat, |j: int| e.image_data.palette@[j] as i128));
            }
        },
        Order::Date => {
            k.push(e.modified_time);
        },
        Order::Name => {
            let path = chars_of(e.original_file_path().as_str());
            push_encoded(&mut k, path.as_slice());
        },
        Order::Size => {
            k.push(e.file_size as i128);
        },
        Order::Value => {
            k.push(e.image_data.rank.index() as i128);
            let path = chars_of(e.original_file_path().as_str());
            push_encoded(&mut k, path.as_slice());
        },
        Order::Random => {},
    }
    assert(k@ =~= order_key(*e, o));
    k
}

pub(crate) fn less_keys(a: &[i128], b: &[i128]) -> (r: bool)
    ensures
        r == key_less(a@, b@),
{
    let mut i: usize = 0;
    assert(a@.skip(0) == a@ && b@.skip(0) == b@);
    while i < a.len() && i < b.len()
        invariant
            i <= a.len(),
            i <= b.len(),
            key_less(a@, b@) == key_less(a@.skip(i as int), b@.skip(i as int)),
        decreases a.len() - i,
    {
        assert(a@.skip(i as int)[0] == a[i as int] && b@.skip(i as int)[0] == b[i as int]);
        if a[i] != b[i] {
            return a[i] < b[i];
        }
        assert(a@.skip(i as int).drop_first() == a@.skip(i + 1));
        assert(b@.skip(i as int).drop_first() == b@.skip(i + 1));
        i = i + 1;
    }
    i == a.len() && i < b.len()
}


pub(crate) fn equal_keys(a: &[i128], b: &[i128]) -> (r: bool)
    ensures
        r == (a@ == b@),
{
    if a.len() != b.len() {
        return false;
    }
    let mut i: usize = 0;
    while i < a.len()
        invariant
            i <= a.len() == b.len(),
            forall|j: int| 0 <= j < i ==> a@[j] == b@[j],
        decreases a.len() - i,
    {
        if a[i] != b[i] {
            return false;
        }
        i = i + 1;
    }
    assert(a@ =~= b@);
    true
}

pub proof fn lemma_before_transitive(s: Seq<Entry>, o: Order, i: int, j: int, k: int)
    requires
        comes_before(s, o, i, j),
        comes_before(s, o, j, k),
    ensures
        comes_before(s, o, i, k),
{
    let (a, b, c) = (order_key(s[i], o), order_key(s[j], o), order_key(s[k], o));
    if key_less(a, b) && key_less(b, c) {
        lemma_key_less_transitive(a, b, c);
    }
}

pub proof fn lemma_before_total(s: Seq<Entry>, o: Order, i: int, j: int)
    ensures
        i != j ==> comes_before(s, o, i, j) || comes_before(s, o, j, i),
        !(comes_before(s, o, i, j) && comes_before(s, o, j, i)),
        !comes_before(s, o, i, i),
{
    lemma_key_less_total(order_key(s[i], o), order_key(s[j], o));
    lemma_key_less_total(order_key(s[j], o), order_key(s[i], o));
}

/// The keys held by a list of key vectors.
pub open spec fn key_views(v: Seq<Vec<i128>>) -> Seq<Seq<i128>> {
    v.map_values(|k: Vec<i128>| k@)
}

/// Whether the item at index `i` comes before the one at index `j` by keys `ks`: by key, and
/// between equal keys by index, as a stable sort keeps them.
pub open spec fn key_before(ks: Seq<Seq<i128>>, i: int, j: int) -> bool {
    key_less(ks[i], ks[j]) || (ks[i] == ks[j] && i < j)
}

/// Whether `t` is `s` stably sorted by keys `ks`: `t` lists each picture of `s` once,
/// through a sequence `p` of indices, and every picture comes before the ones listed after
/// it.
pub open spec fn sorted_by_keys(s: Seq<Entry>, t: Seq<Entry>, ks: Seq<Seq<i128>>, p: Seq<int>) -> bool {
    &&& p.len() == s.len()
    &&& t.len() == s.len()
    &&& ks.len() == s.len()
    &&& forall|k: int| 0 <= k < p.len() ==> 0 <= #[trigger] p[k] < s.len() && t[k] == s[p[k]]
    &&& forall|m: int| 0 <= m < s.len() ==> #[trigger] lists(p, m)
    &&& forall|k: int, l: int| 0 <= k < l < p.len() ==> key_before(ks, p[k], p[l])
}

pub proof fn lemma_key_before_transitive(ks: Seq<Seq<i128>>, i: int, j: int, k: int)
    requires
        key_before(ks, i, j),
        key_before(ks, j, k),
    ensures
        key_before(ks, i, k),
{
    if key_less(ks[i], ks[j]) && key_less(ks[j], ks[k]) {
        lemma_key_less_transitive(ks[i], ks[j], ks[k]);
    }
}

pub proof fn lemma_key_before_total(ks: Seq<Seq<i128>>, i: int, j: int)
    ensures
        i != j ==> key_before(ks, i, j) || key_before(ks, j, i),
        !(key_before(ks, i, j) && key_before(ks, j, i)),
        !key_before(ks, i, i),
{
    lemma_key_less_total(ks[i], ks[j]);
    lemma_key_less_total(ks[j], ks[i]);
}

/// Sorts pictures stably by given keys, one for each picture: pictures with equal keys
/// keep their relative places.
pub fn sort_with_keys(entries: &mut Vec<Entry>, keys: &Vec<Vec<i128>>)
    requires
        keys.len() == old(entries).len(),
    ensures
        exists|p: Seq<int>| sorted_by_keys(old(entries)@, final(entries)@, key_views(keys@), p),
{
    let ghost s = entries@;
    let ghost ks = key_views(keys@);
    let n = entries.len();
    let mut perm: Vec<usize> = Vec::new();
    let mut i: usize = 0;
    while i < n
        invariant
            i <= n == keys.len() == s.len(),
            ks == key_views(keys@),
            perm.len() == i,
            forall|k: int| 0 <= k < i ==> #[trigger] perm@[k] < i,
            forall|m: int| 0 <= m < i ==> #[trigger] lists_first(perm@, i as int, m),
            forall|k: int, l: int|
                #![trigger perm@[k], perm@[l]]
                0 <= k < l < i ==> key_before(ks, perm@[k] as int, perm@[l] as int),
        decreases n - i,
    {
        let mut lo: usize = 0;
        let mut hi: usize = perm.len();
        while lo < hi
            invariant
                0 <= lo <= hi <= perm.len() == i < n == keys.len() == s.len(),
                ks == key_views(keys@),
                forall|k: int| 0 <= k < i ==> #[trigger] perm@[k] < i,
                forall|k: int, l: int|
                    #![trigger perm@[k], perm@[l]]
                    0 <= k < l < i ==> key_before(ks, perm@[k] as int, perm@[l] as int),
                forall|k: int| 0 <= k < lo ==> key_before(ks, #[trigger] perm@[k] as int, i as int),
                forall|k: int| hi <= k < i ==> key_before(ks, i as int, #[trigger] perm@[k] as int),
            decreases hi - lo,
        {
            let mid = lo + (hi - lo) / 2;
            let m = perm[mid];
            let before = less_keys(keys[m].as_slice(), keys[i].as_slice()) || (equal_keys(
                keys[m].as_slice(),
                keys[i].as_slice(),
            ) && m < i);
            assert(keys@[m as int]@ == ks[m as int] && keys@[i as int]@ == ks[i as int]);
            assert(before == key_before(ks, m as int, i as int));
            if before {
                assert forall|k: int| 0 <= k < mid + 1 implies key_before(
                    ks,
                    #[trigger] perm@[k] as int,
                    i as int,
                ) by {
                    if k < mid {
                        lemma_key_before_transitive(ks, perm@[k] as int, m as int, i as int);
                    }
                }
                lo = mid + 1;
            } else {
                proof {
                    lemma_key_before_total(ks, m as int, i as int);
                }
                assert forall|k: int| mid <= k < i implies key_before(
                    ks,
                    i as int,
                    #[trigger] perm@[k] as int,
                ) by {
                    if k > mid {
                        lemma_key_before_transitive(ks, i as int, m as int, perm@[k] as int);
                    }
                }
                hi = mid;
            }
        }
        let ghost old_perm = perm@;
        perm.insert(lo, i);
        assert forall|k: int, l: int|
            #![trigger perm@[k], perm@[l]]
            0 <= k < l < i + 1 implies key_before(ks, perm@[k] as int, perm@[l] as int) by {
            if l < lo {
                assert(perm@[k] == old_perm[k] && perm@[l] == old_perm[l]);
            } else if l == lo {
                assert(perm@[k] == old_perm[k]);
            } else if k < lo {
                assert(perm@[k] == old_perm[k] && perm@[l] == old_perm[l - 1]);
            } else if k == lo {
                assert(perm@[l] == old_perm[l - 1]);
            } else {
                assert(perm@[k] == old_perm[k - 1] && perm@[l] == old_perm[l - 1]);
            }
        }
        assert forall|m: int| 0 <= m < i + 1 implies #[trigger] lists_first(perm@, i + 1, m) by {
            if m == i {
                assert(perm@[lo as int] == m);
            } else {
                assert(lists_first(old_perm, i as int, m));
                let k0 = choose|k: int| 0 <= k < i && old_perm[k] == m;
                if k0 < lo {
                    assert(perm@[k0] == m);
                } else {
                    assert(perm@[k0 + 1] == m);
                }
            }
        }
        assert forall|k: int| 0 <= k < i + 1 implies #[trigger] perm@[k] < i + 1 by {
            if k < lo {
                assert(perm@[k] == old_perm[k]);
            } else if k > lo {
                assert(perm@[k] == old_perm[k - 1]);
            }
        }
        i = i + 1;
    }
    let mut slots: Vec<Option<Entry>> = Vec::new();
    while entries.len() > 0
        invariant
            entries.len() + slots.len() == n == s.len(),
            entries@ == s.take(entries.len() as int),
            forall|j: int| 0 <= j < slots.len() ==> #[trigger] slots@[j] == Some(s[n - 1 - j]),
        decreases entries.len(),
    {
        let e = entries.pop().unwrap();
        slots.push(Some(e));
        assert(entries@ =~= s.take(entries.len() as int));
    }
    let mut result: Vec<Entry> = Vec::new();
    let mut k: usize = 0;
    while k < n
        invariant
            k <= n == perm.len() == slots.len() == s.len(),
            forall|j: int| 0 <= j < n ==> #[trigger] perm@[j] < n,
            forall|m: int| 0 <= m < n ==> #[trigger] lists_first(perm@, n as int, m),
            forall|a: int, b: int|
                #![trigger perm@[a], perm@[b]]
                0 <= a < b < n ==> key_before(ks, perm@[a] as int, perm@[b] as int),
            result.len() == k,
            forall|j: int| 0 <= j < k ==> #[trigger] result@[j] == s[perm@[j] as int],
            forall|m: int|
                0 <= m < n && (forall|j: int| 0 <= j < k ==> perm@[j] != m) ==> #[trigger] slots@[n
                    - 1 - m] == Some(s[m]),
        decreases n - k,
    {
        let m = perm[k];
        proof {
            assert forall|j: int| 0 <= j < k implies perm@[j] != m by {
                lemma_key_before_total(ks, m as int, m as int);
            }
        }
        let idx = n - 1 - m;
        let ghost old_slots = slots@;
        let taken = slots[idx].take();
        match taken {
            Some(e) => {
                result.push(e);
            },
            None => {
                assert(false);
            },
        }
        assert forall|mm: int|
            0 <= mm < n && (forall|j: int| 0 <= j < k + 1 ==> perm@[j] != mm) implies #[trigger] slots@[n
            - 1 - mm] == Some(s[mm]) by {
            assert(perm@[k as int] != mm);
            assert(old_slots[n - 1 - mm] == Some(s[mm]));
        }
        k = k + 1;
    }
    *entries = result;
    let ghost p = perm@.map_values(|x: usize| x as int);
    assert forall|m: int| 0 <= m < s.len() implies #[trigger] lists(p, m) by {
        assert(lists_first(perm@, n as int, m));
        let j = choose|j: int| 0 <= j < n && perm@[j] == m;
        assert(p[j] == m);
    }
    assert(sorted_by_keys(s, entries@, ks, p));
}

/// Sorts pictures stably by the keys of an order: pictures with equal keys keep their
/// relative places.
pub fn sort_entries(entries: &mut Vec<Entry>, order: Order)
    requires
        paths_defined(old(entries)@, order),
    ensures
        exists|p: Seq<int>| sorted_as(old(entries)@, final(entries)@, order, p),
{
    let ghost s = entries@;
    let n = entries.len();
    let mut keys: Vec<Vec<i128>> = Vec::new();
    let mut i: usize = 0;
    while i < n
        invariant
            i <= n == entries.len(),
            entries@ == s,
            paths_defined(s, order),
            keys.len() == i,
            forall|j: int| 0 <= j < i ==> #[trigger] keys@[j]@ == order_key(s[j], order),
        decreases n - i,
    {
        keys.push(entry_key(&entries[i], order));
        i = i + 1;
    }
    sort_with_keys(entries, &keys);
    proof {
        let ks = key_views(keys@);
        let p = choose|p: Seq<int>| sorted_by_keys(s, entries@, ks, p);
        assert forall|k: int, l: int| 0 <= k < l < p.len() implies comes_before(s, order, p[k], p[l]) by {
            assert(key_before(ks, p[k], p[l]));
            assert(ks[p[k]] == order_key(s[p[k]], order));
            assert(ks[p[l]] == order_key(s[p[l]], order));
        }
        assert(sorted_as(s, entries@, order, p));
    }
}

}

verus! {

/// The key of a string ranks strings as their lexicographic order does, and tells them
/// apart: keys by name order pictures by the text of their paths.
pub proof fn lemma_encode_order(a: Seq<char>, b: Seq<char>)
    ensures
        key_less(encode(a), encode(b)) == seq_less(a, b),
        (encode(a) == encode(b)) == (a == b),
    decreases a.len(),
{
    let ea = encode(a);
    let eb = encode(b);
    if a.len() > 0 && b.len() > 0 {
        let ta = a.drop_first();
        let tb = b.drop_first();
        assert(ea.drop_first() == encode(ta));
        assert(eb.drop_first() == encode(tb));
        lemma_encode_order(ta, tb);
        assert(ea[0] == (a[0] as u32) as i128 + 1);
        assert(eb[0] == (b[0] as u32) as i128 + 1);
        vstd::utf8::char_u32_cast(a[0], a[0] as u32);
        vstd::utf8::char_u32_cast(b[0], b[0] as u32);
        assert((a[0] == b[0]) == (ea[0] == eb[0]));
        assert(key_less(ea, eb) == seq_less(a, b));
        if ea == eb {
            assert(ea.drop_first() == eb.drop_first());
            assert(ta == tb);
            assert(a == seq![a[0]] + ta);
            assert(b == seq![b[0]] + tb);
        }
    } else if a.len() == 0 && b.len() > 0 {
        assert(ea[0] == 0);
        assert(eb[0] > 0);
        assert(ea != eb);
        assert(key_less(ea, eb));
    } else if a.len() > 0 && b.len() == 0 {
        assert(ea[0] > 0);
        assert(eb[0] == 0);
        assert(ea != eb);
        assert(!key_less(ea, eb));
    } else {
        assert(a == b);
        assert(ea.drop_first() == eb.drop_first());
        assert(ea.drop_first().len() == 0);
        assert(!key_less(ea.drop_first(), eb.drop_first()));
        assert(ea == eb);
    }
}

}
