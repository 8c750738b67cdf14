//! What each order does to the pictures it sorts, stated over their fields.
use vstd::prelude::*;
use crate::entry::Entry;
use crate::order::Order;
use crate::paths::original_path;
use crate::rank::Rank;
use crate::sorting::{comes_before, encode, key_less, lemma_encode_order, lemma_key_less_total, order_key, sorted_as};
use crate::text::seq_less;

verus! {

/// Where two keys first differ, the smaller one there is the smaller key.
pub proof fn lemma_key_less_at_difference(x: Seq<i128>, y: Seq<i128>, i: int)
    requires
        0 <= i < x.len(),
        i < y.len(),
        forall|j: int| 0 <= j < i ==> x[j] == y[j],
        x[i] != y[i],
    ensures
        key_less(x, y) == (x[i] < y[i]),
    decreases i,
{
    if i > 0 {
        assert(x[0] == y[0]);
        lemma_key_less_at_difference(x.drop_first(), y.drop_first(), i - 1);
    }
}

/// Two keys that start alike compare as what follows.
pub proof fn lemma_key_less_after_head(h: i128, x: Seq<i128>, y: Seq<i128>)
    ensures
        key_less(seq![h] + x, seq![h] + y) == key_less(x, y),
{
    assert((seq![h] + x).drop_first() =~= x);
    assert((seq![h] + y).drop_first() =~= y);
}

/// In a stably sorted list no picture's key is below that of one before it, and pictures
/// with equal keys keep the order they had.
pub proof fn lemma_sorted_keys_ascend(s: Seq<Entry>, t: Seq<Entry>, o: Order, p: Seq<int>, k: int, l: int)
    requires
        sorted_as(s, t, o, p),
        0 <= k < l < t.len(),
    ensures
        !key_less(order_key(t[l], o), order_key(t[k], o)),
        order_key(t[k], o) == order_key(t[l], o) ==> p[k] < p[l],
{
    assert(comes_before(s, o, p[k], p[l]));
    assert(t[k] == s[p[k]] && t[l] == s[p[l]]);
    lemma_key_less_total(order_key(t[k], o), order_key(t[l], o));
}

/// Sorting by size puts smaller files first; files of equal size keep their order.
pub proof fn lemma_size_order_ascends(s: Seq<Entry>, t: Seq<Entry>, p: Seq<int>)
    requires
        sorted_as(s, t, Order::Size, p),
    ensures
        forall|k: int, l: int| 0 <= k < l < t.len() ==> t[k].file_size <= t[l].file_size,
        forall|k: int, l: int|
            0 <= k < l < t.len() && t[k].file_size == t[l].file_size ==> p[k] < p[l],
{
    assert forall|k: int, l: int| 0 <= k < l < t.len() implies t[k].file_size <= t[l].file_size
        && (t[k].file_size == t[l].file_size ==> p[k] < p[l]) by {
        lemma_sorted_keys_ascend(s, t, Order::Size, p, k, l);
        let a = order_key(t[l], Order::Size);
        let b = order_key(t[k], Order::Size);
        if t[k].file_size != t[l].file_size {
            lemma_key_less_at_difference(a, b, 0);
        } else {
            assert(a =~= b);
        }
    }
}

/// Sorting by date puts older pictures first; pictures of the same time keep their order.
pub proof fn lemma_date_order_ascends(s: Seq<Entry>, t: Seq<Entry>, p: Seq<int>)
    requires
        sorted_as(s, t, Order::Date, p),
    ensures
        forall|k: int, l: int| 0 <= k < l < t.len() ==> t[k].modified_time <= t[l].modified_time,
        forall|k: int, l: int|
            0 <= k < l < t.len() && t[k].modified_time == t[l].modified_time ==> p[k] < p[l],
{
    assert forall|k: int, l: int| 0 <= k < l < t.len() implies t[k].modified_time
        <= t[l].modified_time && (t[k].modified_time == t[l].modified_time ==> p[k] < p[l]) by {
        lemma_sorted_keys_ascend(s, t, Order::Date, p, k, l);
        let a = order_key(t[l], Order::Date);
        let b = order_key(t[k], Order::Date);
        if t[k].modified_time != t[l].modified_time {
            lemma_key_less_at_difference(a, b, 0);
        } else {
            assert(a =~= b);
        }
    }
}

/// Whether palette `a` comes strictly before palette `b`, compared as arrays are: at the
/// first slot where they differ, `a` holds the smaller word.
pub open spec fn palette_before(a: [u32; 9], b: [u32; 9]) -> bool {
    exists|i: int|
        0 <= i < 9 && (forall|j: int| 0 <= j < i ==> a@[j] == b@[j]) && #[trigger] a@[i] < b@[i]
}

/// Sorting by palette puts pictures in ascending order of their palettes, compared slot by
/// slot; pictures with equal palettes keep their order.
proof fn lemma_palette_order_ascends_at(s: Seq<Entry>, t: Seq<Entry>, p: Seq<int>, k: int, l: int)
    requires
        sorted_as(s, t, Order::Palette, p),
        0 <= k < l < t.len(),
    ensures
        !palette_before(
        t[l].image_data.palette,
        t[k].image_data.palette,
    ) && (t[k].image_data.palette@ == t[l].image_data.palette@ ==> p[k] < p[l]),
{
        lemma_sorted_keys_ascend(s, t, Order::Palette, p, k, l);
        let pl = t[l].image_data.palette@;
        let pk = t[k].image_data.palette@;
        let a = order_key(t[l], Order::Palette);
        let b = order_key(t[k], Order::Palette);
        if palette_before(t[l].image_data.palette, t[k].image_data.palette) {
            let i = choose|i: int|
                0 <= i < 9 && (forall|j: int| 0 <= j < i ==> pl[j] == pk[j]) && #[trigger] pl[i]
                    < pk[i];
            assert(forall|j: int| 0 <= j < i ==> a[j] == b[j]);
            lemma_key_less_at_difference(a, b, i);
        }
        if pk == pl {
            assert(a =~= b);
        }
}

pub proof fn lemma_palette_order_ascends(s: Seq<Entry>, t: Seq<Entry>, p: Seq<int>)
    requires
        sorted_as(s, t, Order::Palette, p),
    ensures
        forall|k: int, l: int|
            0 <= k < l < t.len() ==> !palette_before(t[l].image_data.palette, t[k].image_data.palette),
        forall|k: int, l: int|
            0 <= k < l < t.len() && t[k].image_data.palette@ == t[l].image_data.palette@ ==> p[k]
                < p[l],
{
    assert forall|k: int, l: int| 0 <= k < l < t.len() implies !palette_before(
        t[l].image_data.palette,
        t[k].image_data.palette,
    ) by {
        lemma_palette_order_ascends_at(s, t, p, k, l);
    }
    assert forall|k: int, l: int| 0 <= k < l < t.len() && t[k].image_data.palette@ == t[l].image_data.palette@ implies p[k]
                < p[l] by {
        lemma_palette_order_ascends_at(s, t, p, k, l);
    }
}

/// Sorting by name puts the pictures in ascending order of their paths (those of the
/// pictures, not of thumbnails); pictures of the same path keep their order.
proof fn lemma_name_order_ascends_at(s: Seq<Entry>, t: Seq<Entry>, p: Seq<int>, k: int, l: int)
    requires
        sorted_as(s, t, Order::Name, p),
        0 <= k < l < t.len(),
    ensures
        !seq_less(
        original_path(t[l].file_path@),
        original_path(t[k].file_path@),
    ) && (original_path(t[k].file_path@) == original_path(t[l].file_path@) ==> p[k] < p[l]),
{
        lemma_sorted_keys_ascend(s, t, Order::Name, p, k, l);
        lemma_encode_order(original_path(t[l].file_path@), original_path(t[k].file_path@));
}

pub proof fn lemma_name_order_ascends(s: Seq<Entry>, t: Seq<Entry>, p: Seq<int>)
    requires
        sorted_as(s, t, Order::Name, p),
    ensures
        forall|k: int, l: int|
            0 <= k < l < t.len() ==> !seq_less(
                original_path(t[l].file_path@),
                original_path(t[k].file_path@),
            ),
        forall|k: int, l: int|
            0 <= k < l < t.len() && original_path(t[k].file_path@) == original_path(
                t[l].file_path@,
            ) ==> p[k] < p[l],
{
    assert forall|k: int, l: int| 0 <= k < l < t.len() implies !seq_less(
                original_path(t[l].file_path@),
                original_path(t[k].file_path@),
            ) by {
        lemma_name_order_ascends_at(s, t, p, k, l);
    }
    assert forall|k: int, l: int| 0 <= k < l < t.len() && original_path(t[k].file_path@) == original_path(
                t[l].file_path@,
            ) implies p[k] < p[l] by {
        lemma_name_order_ascends_at(s, t, p, k, l);
    }
}

/// Sorting by colours puts pictures with fewer colours first, and pictures with as many
/// colours in ascending order of their paths.
proof fn lemma_colors_order_ascends_at(s: Seq<Entry>, t: Seq<Entry>, p: Seq<int>, k: int, l: int)
    requires
        sorted_as(s, t, Order::Colors, p),
        0 <= k < l < t.len(),
    ensures
        t[k].image_data.colors
        <= t[l].image_data.colors && (t[k].image_data.colors == t[l].image_data.colors
        ==> !seq_less(original_path(t[l].file_path@), original_path(t[k].file_path@))),
{
        lemma_sorted_keys_ascend(s, t, Order::Colors, p, k, l);
        let a = order_key(t[l], Order::Colors);
        let b = order_key(t[k], Order::Colors);
        let el = encode(original_path(t[l].file_path@));
        let ek = encode(original_path(t[k].file_path@));
        if t[k].image_data.colors != t[l].image_data.colors {
            lemma_key_less_at_difference(a, b, 0);
        } else {
            let h = t[k].image_data.colors as i128;
            assert(a == seq![h] + el);
            assert(b == seq![h] + ek);
            lemma_key_less_after_head(h, el, ek);
            lemma_encode_order(original_path(t[l].file_path@), original_path(t[k].file_path@));
        }
}

pub proof fn lemma_colors_order_ascends(s: Seq<Entry>, t: Seq<Entry>, p: Seq<int>)
    requires
        sorted_as(s, t, Order::Colors, p),
    ensures
        forall|k: int, l: int|
            0 <= k < l < t.len() ==> t[k].image_data.colors <= t[l].image_data.colors,
        forall|k: int, l: int|
            0 <= k < l < t.len() && t[k].image_data.colors == t[l].image_data.colors ==> !seq_less(
                original_path(t[l].file_path@),
                original_path(t[k].file_path@),
            ),
{
    assert forall|k: int, l: int| 0 <= k < l < t.len() implies t[k].image_data.colors <= t[l].image_data.colors by {
        lemma_colors_order_ascends_at(s, t, p, k, l);
    }
    assert forall|k: int, l: int| 0 <= k < l < t.len() && t[k].image_data.colors == t[l].image_data.colors implies !seq_less(
                original_path(t[l].file_path@),
                original_path(t[k].file_path@),
            ) by {
        lemma_colors_order_ascends_at(s, t, p, k, l);
    }
}

/// How far a rank is from three stars.
spec fn stars_below_three(r: Rank) -> int {
    match r {
        Rank::ThreeStars => 0,
        Rank::TwoStars => 1,
        Rank::OneStar => 2,
        Rank::NoStar => 3,
    }
}

/// Sorting by value puts pictures with more stars first (three stars, then two, one,
/// none), and pictures of the same rank in ascending order of their paths.
proof fn lemma_value_order_ascends_at(s: Seq<Entry>, t: Seq<Entry>, p: Seq<int>, k: int, l: int)
    requires
        sorted_as(s, t, Order::Value, p),
        0 <= k < l < t.len(),
    ensures
        stars_below_three(
        t[k].image_data.rank,
    ) <= stars_below_three(t[l].image_data.rank) && (t[k].image_data.rank == t[l].image_data.rank
        ==> !seq_less(original_path(t[l].file_path@), original_path(t[k].file_path@))),
{
        lemma_sorted_keys_ascend(s, t, Order::Value, p, k, l);
        let a = order_key(t[l], Order::Value);
        let b = order_key(t[k], Order::Value);
        let el = encode(original_path(t[l].file_path@));
        let ek = encode(original_path(t[k].file_path@));
        if t[k].image_data.rank != t[l].image_data.rank {
            lemma_key_less_at_difference(a, b, 0);
        } else {
            let h = a[0];
            assert(a == seq![h] + el);
            assert(b == seq![h] + ek);
            lemma_key_less_after_head(h, el, ek);
            lemma_encode_order(original_path(t[l].file_path@), original_path(t[k].file_path@));
        }
}

pub proof fn lemma_value_order_ascends(s: Seq<Entry>, t: Seq<Entry>, p: Seq<int>)
    requires
        sorted_as(s, t, Order::Value, p),
    ensures
        forall|k: int, l: int|
            0 <= k < l < t.len() ==> (t[l].image_data.rank == Rank::ThreeStars ==> t[k].image_data.rank
                == Rank::ThreeStars),
        forall|k: int, l: int|
            0 <= k < l < t.len() ==> (t[l].image_data.rank == Rank::TwoStars ==> (
            t[k].image_data.rank == Rank::ThreeStars || t[k].image_data.rank == Rank::TwoStars)),
        forall|k: int, l: int|
            0 <= k < l < t.len() ==> (t[l].image_data.rank == Rank::OneStar ==> t[k].image_data.rank
                != Rank::NoStar),
        forall|k: int, l: int|
            0 <= k < l < t.len() && t[k].image_data.rank == t[l].image_data.rank ==> !seq_less(
                original_path(t[l].file_path@),
                original_path(t[k].file_path@),
            ),
{
    assert forall|k: int, l: int| 0 <= k < l < t.len() implies (t[l].image_data.rank == Rank::ThreeStars ==> t[k].image_data.rank
                == Rank::ThreeStars) by {
        lemma_value_order_ascends_at(s, t, p, k, l);
    }
    assert forall|k: int, l: int| 0 <= k < l < t.len() implies (t[l].image_data.rank == Rank::TwoStars ==> (
            t[k].image_data.rank == Rank::ThreeStars || t[k].image_data.rank == Rank::TwoStars)) by {
        lemma_value_order_ascends_at(s, t, p, k, l);
    }
    assert forall|k: int, l: int| 0 <= k < l < t.len() implies (t[l].image_data.rank == Rank::OneStar ==> t[k].image_data.rank
                != Rank::NoStar) by {
        lemma_value_order_ascends_at(s, t, p, k, l);
    }
    assert forall|k: int, l: int| 0 <= k < l < t.len() && t[k].image_data.rank == t[l].image_data.rank implies !seq_less(
                original_path(t[l].file_path@),
                original_path(t[k].file_path@),
            ) by {
        lemma_value_order_ascends_at(s, t, p, k, l);
    }
}

}

verus! {

/// Keys that start with the key of a text compare first by the texts, then, for equal
/// texts, by what follows.
pub proof fn lemma_encode_then(a: Seq<char>, x: Seq<i128>, b: Seq<char>, y: Seq<i128>)
    ensures
        key_less(encode(a) + x, encode(b) + y) == if a == b {
            key_less(x, y)
        } else {
            seq_less(a, b)
        },
    decreases a.len(),
{
    let ea = encode(a) + x;
    let eb = encode(b) + y;
    if a.len() > 0 && b.len() > 0 {
        vstd::utf8::char_u32_cast(a[0], a[0] as u32);
        vstd::utf8::char_u32_cast(b[0], b[0] as u32);
        assert(ea[0] == (a[0] as u32) as i128 + 1);
        assert(eb[0] == (b[0] as u32) as i128 + 1);
        if a[0] == b[0] {
            assert(ea.drop_first() =~= encode(a.drop_first()) + x);
            assert(eb.drop_first() =~= encode(b.drop_first()) + y);
            lemma_encode_then(a.drop_first(), x, b.drop_first(), y);
            if a.drop_first() == b.drop_first() {
                assert(a =~= b) by {
                    assert forall|i: int| 0 <= i < a.len() implies a[i] == b[i] by {
                        if i > 0 {
                            assert(a[i] == a.drop_first()[i - 1]);
                            assert(b[i] == b.drop_first()[i - 1]);
                        }
                    }
                }
            }
        } else {
            assert(ea[0] != eb[0]);
        }
    } else if a.len() == 0 && b.len() > 0 {
        assert(ea[0] == 0);
        assert(eb[0] > 0);
    } else if a.len() > 0 && b.len() == 0 {
        assert(ea[0] > 0);
        assert(eb[0] == 0);
    } else {
        assert(a =~= b);
        assert(ea.drop_first() =~= x);
        assert(eb.drop_first() =~= y);
        assert(ea[0] == 0 && eb[0] == 0);
    }
}

proof fn lemma_label_order_ascends_at(s: Seq<Entry>, t: Seq<Entry>, p: Seq<int>, k: int, l: int)
    requires
        sorted_as(s, t, Order::Label, p),
        0 <= k < l < t.len(),
    ensures
        t[k].image_data.label@.len() == 0 ==> t[l].image_data.label@.len() == 0,
        t[k].image_data.label@.len() > 0 && t[l].image_data.label@.len() > 0 ==> !seq_less(
            t[l].image_data.label@,
            t[k].image_data.label@,
        ),
        t[k].image_data.label@ == t[l].image_data.label@ ==> !seq_less(
            original_path(t[l].file_path@),
            original_path(t[k].file_path@),
        ),
{
    lemma_sorted_keys_ascend(s, t, Order::Label, p, k, l);
    let a = order_key(t[l], Order::Label);
    let b = order_key(t[k], Order::Label);
    let ll = t[l].image_data.label@;
    let lk = t[k].image_data.label@;
    let el = encode(original_path(t[l].file_path@));
    let ek = encode(original_path(t[k].file_path@));
    if ll.len() > 0 && lk.len() > 0 {
        assert(a =~= seq![0i128] + (encode(ll) + el));
        assert(b =~= seq![0i128] + (encode(lk) + ek));
        lemma_key_less_after_head(0i128, encode(ll) + el, encode(lk) + ek);
        lemma_encode_then(ll, el, lk, ek);
        crate::text::lemma_seq_less_trichotomy(ll, lk);
        lemma_encode_order(original_path(t[l].file_path@), original_path(t[k].file_path@));
    } else if ll.len() == 0 && lk.len() == 0 {
        assert(a =~= seq![1i128] + el);
        assert(b =~= seq![1i128] + ek);
        lemma_key_less_after_head(1i128, el, ek);
        lemma_encode_order(original_path(t[l].file_path@), original_path(t[k].file_path@));
    } else {
        assert(a[0] != b[0]);
        lemma_key_less_at_difference(a, b, 0);
    }
}

/// Sorting by label puts labelled pictures first, in ascending order of their labels, and
/// pictures with the same label (or none) in ascending order of their paths.
pub proof fn lemma_label_order_ascends(s: Seq<Entry>, t: Seq<Entry>, p: Seq<int>)
    requires
        sorted_as(s, t, Order::Label, p),
    ensures
        forall|k: int, l: int|
            0 <= k < l < t.len() && t[k].image_data.label@.len() == 0 ==> t[l].image_data.label@.len()
                == 0,
        forall|k: int, l: int|
            0 <= k < l < t.len() && t[k].image_data.label@.len() > 0 && t[l].image_data.label@.len()
                > 0 ==> !seq_less(t[l].image_data.label@, t[k].image_data.label@),
        forall|k: int, l: int|
            0 <= k < l < t.len() && t[k].image_data.label@ == t[l].image_data.label@ ==> !seq_less(
                original_path(t[l].file_path@),
                original_path(t[k].file_path@),
            ),
{
    assert forall|k: int, l: int|
        0 <= k < l < t.len() && t[k].image_data.label@.len() == 0 implies t[l].image_data.label@.len()
            == 0 by {
        lemma_label_order_ascends_at(s, t, p, k, l);
    }
    assert forall|k: int, l: int|
        0 <= k < l < t.len() && t[k].image_data.label@.len() > 0 && t[l].image_data.label@.len()
            > 0 implies !seq_less(t[l].image_data.label@, t[k].image_data.label@) by {
        lemma_label_order_ascends_at(s, t, p, k, l);
    }
    assert forall|k: int, l: int|
        0 <= k < l < t.len() && t[k].image_data.label@ == t[l].image_data.label@ implies !seq_less(
            original_path(t[l].file_path@),
            original_path(t[k].file_path@),
        ) by {
        lemma_label_order_ascends_at(s, t, p, k, l);
    }
}

}

verus! {

/// In a list of `Entries` sorted stably by an order, no picture's key is below that of one
/// before it, and pictures with equal keys keep the order they had.
pub proof fn lemma_list_keys_ascend(s: Seq<Entry>, t: Seq<Entry>, o: Order, p: Seq<int>, k: int, l: int)
    requires
        crate::sorting::sorted_by_keys(s, t, crate::entries::list_keys(s, o), p),
        0 <= k < l < t.len(),
    ensures
        !key_less(crate::entries::list_key(t[l], o), crate::entries::list_key(t[k], o)),
        crate::entries::list_key(t[k], o) == crate::entries::list_key(t[l], o) ==> p[k] < p[l],
{
    let ks = crate::entries::list_keys(s, o);
    assert(crate::sorting::key_before(ks, p[k], p[l]));
    assert(t[k] == s[p[k]] && t[l] == s[p[l]]);
    assert(ks[p[k]] == crate::entries::list_key(t[k], o));
    assert(ks[p[l]] == crate::entries::list_key(t[l], o));
    lemma_key_less_total(ks[p[k]], ks[p[l]]);
}

proof fn lemma_list_order_ascends_at(s: Seq<Entry>, t: Seq<Entry>, o: Order, p: Seq<int>, k: int, l: int)
    requires
        crate::sorting::sorted_by_keys(s, t, crate::entries::list_keys(s, o), p),
        0 <= k < l < t.len(),
    ensures
        o == Order::Size ==> t[k].file_size <= t[l].file_size,
        o == Order::Date ==> t[k].modified_time <= t[l].modified_time,
        o == Order::Colors ==> t[k].image_data.colors <= t[l].image_data.colors,
        o == Order::Name ==> !seq_less(t[l].file_path@, t[k].file_path@),
        o == Order::Value ==> stars_below_three(t[k].image_data.rank) <= stars_below_three(
            t[l].image_data.rank,
        ),
        o == Order::Value && t[k].image_data.rank == t[l].image_data.rank ==> !seq_less(
            t[l].file_path@,
            t[k].file_path@,
        ),
{
    lemma_list_keys_ascend(s, t, o, p, k, l);
    let a = crate::entries::list_key(t[l], o);
    let b = crate::entries::list_key(t[k], o);
    if o == Order::Size || o == Order::Date || o == Order::Colors {
        if a[0] != b[0] {
            lemma_key_less_at_difference(a, b, 0);
        }
    } else if o == Order::Name {
        lemma_encode_order(t[l].file_path@, t[k].file_path@);
    } else if o == Order::Value {
        let el = encode(t[l].file_path@);
        let ek = encode(t[k].file_path@);
        if t[k].image_data.rank != t[l].image_data.rank {
            lemma_key_less_at_difference(a, b, 0);
        } else {
            let h = a[0];
            assert(a == seq![h] + el);
            assert(b == seq![h] + ek);
            lemma_key_less_after_head(h, el, ek);
            lemma_encode_order(t[l].file_path@, t[k].file_path@);
        }
    }
}

/// Sorting `Entries` by size, date or colours puts the smaller value first; by name, the
/// paths (as given) in ascending order; by value, more stars first and, for the same rank,
/// paths in ascending order.
pub proof fn lemma_list_orders_ascend(s: Seq<Entry>, t: Seq<Entry>, o: Order, p: Seq<int>)
    requires
        crate::sorting::sorted_by_keys(s, t, crate::entries::list_keys(s, o), p),
    ensures
        o == Order::Size ==> forall|k: int, l: int|
            0 <= k < l < t.len() ==> t[k].file_size <= t[l].file_size,
        o == Order::Date ==> forall|k: int, l: int|
            0 <= k < l < t.len() ==> t[k].modified_time <= t[l].modified_time,
        o == Order::Colors ==> forall|k: int, l: int|
            0 <= k < l < t.len() ==> t[k].image_data.colors <= t[l].image_data.colors,
        o == Order::Name ==> forall|k: int, l: int|
            0 <= k < l < t.len() ==> !seq_less(t[l].file_path@, t[k].file_path@),
        o == Order::Value ==> forall|k: int, l: int|
            0 <= k < l < t.len() ==> (t[l].image_data.rank == Rank::ThreeStars ==> t[k].image_data.rank
                == Rank::ThreeStars),
        o == Order::Value ==> forall|k: int, l: int|
            0 <= k < l < t.len() ==> (t[l].image_data.rank == Rank::TwoStars ==> (
            t[k].image_data.rank == Rank::ThreeStars || t[k].image_data.rank == Rank::TwoStars)),
        o == Order::Value ==> forall|k: int, l: int|
            0 <= k < l < t.len() ==> (t[l].image_data.rank == Rank::OneStar ==> t[k].image_data.rank
                != Rank::NoStar),
        o == Order::Value ==> forall|k: int, l: int|
            0 <= k < l < t.len() && t[k].image_data.rank == t[l].image_data.rank ==> !seq_less(
                t[l].file_path@,
                t[k].file_path@,
            ),
{
    if o == Order::Size {
        assert forall|k: int, l: int| 0 <= k < l < t.len() implies t[k].file_size
            <= t[l].file_size by {
            lemma_list_order_ascends_at(s, t, o, p, k, l);
        }
    }
    if o == Order::Date {
        assert forall|k: int, l: int| 0 <= k < l < t.len() implies t[k].modified_time
            <= t[l].modified_time by {
            lemma_list_order_ascends_at(s, t, o, p, k, l);
        }
    }
    if o == Order::Colors {
        assert forall|k: int, l: int| 0 <= k < l < t.len() implies t[k].image_data.colors
            <= t[l].image_data.colors by {
            lemma_list_order_ascends_at(s, t, o, p, k, l);
        }
    }
    if o == Order::Name {
        assert forall|k: int, l: int| 0 <= k < l < t.len() implies !seq_less(
            t[l].file_path@,
            t[k].file_path@,
        ) by {
            lemma_list_order_ascends_at(s, t, o, p, k, l);
        }
    }
    if o == Order::Value {
        assert forall|k: int, l: int| 0 <= k < l < t.len() implies (t[l].image_data.rank
            == Rank::ThreeStars ==> t[k].image_data.rank == Rank::ThreeStars) by {
            lemma_list_order_ascends_at(s, t, o, p, k, l);
        }
        assert forall|k: int, l: int| 0 <= k < l < t.len() implies (t[l].image_data.rank
            == Rank::TwoStars ==> (t[k].image_data.rank == Rank::ThreeStars || t[k].image_data.rank
            == Rank::TwoStars)) by {
            lemma_list_order_ascends_at(s, t, o, p, k, l);
        }
        assert forall|k: int, l: int| 0 <= k < l < t.len() implies (t[l].image_data.rank
            == Rank::OneStar ==> t[k].image_data.rank != Rank::NoStar) by {
            lemma_list_order_ascends_at(s, t, o, p, k, l);
        }
        assert forall|k: int, l: int|
            0 <= k < l < t.len() && t[k].image_data.rank == t[l].image_data.rank implies !seq_less(
                t[l].file_path@,
                t[k].file_path@,
            ) by {
            lemma_list_order_ascends_at(s, t, o, p, k, l);
        }
    }
}

}
