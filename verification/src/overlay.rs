//! Sheet preview boxes after a re-detection: the user's manual crops override
//! the freshly detected boxes, so the preview keeps showing them.

use vstd::prelude::*;
use vstd::string::*;
use crate::text::{decimal, push_decimal};

verus! {

/// Positions `0..n` of `keys` in stable increasing order of key: equal keys keep
/// their original order.
pub open spec fn stable_order(keys: Seq<usize>, n: int) -> Seq<int>
    decreases n,
{
    if n <= 0 {
        Seq::empty()
    } else {
        insert_by_key(keys, stable_order(keys, n - 1), n - 1)
    }
}

/// `pos` inserted into the key-ordered positions `s` after every position of equal
/// or smaller key.
pub open spec fn insert_by_key(keys: Seq<usize>, s: Seq<int>, pos: int) -> Seq<int>
    decreases s.len(),
{
    if s.len() == 0 {
        seq![pos]
    } else if keys[s[0]] > keys[pos] {
        seq![pos] + s
    } else {
        seq![s[0]] + insert_by_key(keys, s.drop_first(), pos)
    }
}

/// Preview boxes and their manual flags after applying one manual crop `(index, flat)`:
/// crops with other than 8 coordinates are ignored; an index inside the list replaces
/// that box, any other index appends the box.
pub open spec fn apply_manual<C>(state: (Seq<Seq<C>>, Seq<bool>), index: int, flat: Seq<C>) -> (Seq<Seq<C>>, Seq<bool>) {
    if flat.len() != 8 {
        state
    } else if index < state.0.len() {
        (state.0.update(index, flat), state.1.update(index, true))
    } else {
        (state.0.push(flat), state.1.push(true))
    }
}

/// Preview boxes and flags after applying the first `k` manual crops in stable index order.
pub open spec fn overlay_after<C>(
    quads: Seq<Seq<C>>,
    manual: Seq<(usize, Seq<C>)>,
    order: Seq<int>,
    k: int,
) -> (Seq<Seq<C>>, Seq<bool>)
    decreases k,
{
    if k <= 0 {
        (quads, Seq::new(quads.len(), |i: int| false))
    } else {
        let prev = overlay_after(quads, manual, order, k - 1);
        let e = manual[order[k - 1]];
        apply_manual(prev, e.0 as int, e.1)
    }
}

/// Preview boxes and manual flags: detected boxes, overridden or extended by the
/// manual crops taken in increasing photo index (stable).
pub open spec fn overlay_spec<C>(quads: Seq<Seq<C>>, manual: Seq<(usize, Seq<C>)>) -> (Seq<Seq<C>>, Seq<bool>) {
    let keys = manual.map_values(|e: (usize, Seq<C>)| e.0);
    overlay_after(quads, manual, stable_order(keys, manual.len() as int), manual.len() as int)
}

proof fn lemma_insert_by_key(keys: Seq<usize>, s: Seq<int>, pos: int, p: int)
    requires
        0 <= p <= s.len(),
        forall|j: int| 0 <= j < p ==> keys[#[trigger] s[j]] <= keys[pos],
        p == s.len() || keys[s[p]] > keys[pos],
    ensures
        insert_by_key(keys, s, pos) == s.insert(p, pos),
    decreases s.len(),
{
    if s.len() == 0 {
        assert(s.insert(p, pos) =~= seq![pos]);
    } else if p == 0 {
        assert(s.insert(p, pos) =~= seq![pos] + s);
    } else {
        assert forall|j: int| 0 <= j < p - 1 implies keys[#[trigger] s.drop_first()[j]] <= keys[pos] by {
            assert(s.drop_first()[j] == s[j + 1]);
        }
        lemma_insert_by_key(keys, s.drop_first(), pos, p - 1);
        assert(s.insert(p, pos) =~= seq![s[0]] + s.drop_first().insert(p - 1, pos));
    }
}

proof fn lemma_insert_by_key_range(keys: Seq<usize>, s: Seq<int>, pos: int, n: int)
    requires
        forall|j: int| 0 <= j < s.len() ==> 0 <= #[trigger] s[j] < n,
        0 <= pos < n,
    ensures
        insert_by_key(keys, s, pos).len() == s.len() + 1,
        forall|j: int| 0 <= j < s.len() + 1 ==> 0 <= #[trigger] insert_by_key(keys, s, pos)[j] < n,
    decreases s.len(),
{
    if s.len() > 0 && keys[s[0]] <= keys[pos] {
        lemma_insert_by_key_range(keys, s.drop_first(), pos, n);
        let t = insert_by_key(keys, s.drop_first(), pos);
        assert forall|j: int| 0 <= j < s.len() + 1 implies 0 <= #[trigger] insert_by_key(keys, s, pos)[j] < n by {
            if j > 0 {
                assert(insert_by_key(keys, s, pos)[j] == t[j - 1]);
            }
        }
    }
}

proof fn lemma_stable_order_range(keys: Seq<usize>, n: int)
    requires
        n >= 0,
    ensures
        stable_order(keys, n).len() == n,
        forall|j: int| 0 <= j < n ==> 0 <= #[trigger] stable_order(keys, n)[j] < n,
    decreases n,
{
    if n > 0 {
        lemma_stable_order_range(keys, n - 1);
        lemma_insert_by_key_range(keys, stable_order(keys, n - 1), n - 1, n);
    }
}

proof fn lemma_overlay_lengths<C>(quads: Seq<Seq<C>>, manual: Seq<(usize, Seq<C>)>, order: Seq<int>, k: int)
    ensures
        overlay_after(quads, manual, order, k).0.len() == overlay_after(quads, manual, order, k).1.len(),
    decreases k,
{
    if k > 0 {
        lemma_overlay_lengths(quads, manual, order, k - 1);
    }
}

fn copy_flat<C: Copy>(v: &Vec<C>) -> (c: Vec<C>)
    ensures
        c@ == v@,
{
    let mut c: Vec<C> = Vec::new();
    let mut i: usize = 0;
    while i < v.len()
        invariant
            i <= v@.len(),
            c@ == v@.subrange(0, i as int),
        decreases v@.len() - i,
    {
        c.push(v[i]);
        i += 1;
        proof {
            assert(c@ =~= v@.subrange(0, i as int));
        }
    }
    proof {
        assert(c@ =~= v@);
    }
    c
}

/// Preview boxes (each 8 coordinates TL TR BR BL as x, y pairs) and manual flags
/// once the manual crops `(photo index, coordinates)` are laid over the detected
/// boxes: in increasing photo index (equal indices in given order), a crop with 8
/// coordinates replaces the box at its index, or is appended when the index lies
/// beyond the list; other crops are ignored. Detected boxes start unflagged,
/// manual boxes are flagged.
pub fn overlay_manual<C: Copy>(quads: &Vec<Vec<C>>, manual: &Vec<(usize, Vec<C>)>) -> (r: (Vec<Vec<C>>, Vec<bool>))
    ensures
        (r.0@.map_values(|q: Vec<C>| q@), r.1@) == overlay_spec(
            quads@.map_values(|q: Vec<C>| q@),
            manual@.map_values(|e: (usize, Vec<C>)| (e.0, e.1@)),
        ),
{
    let ghost qs = quads@.map_values(|q: Vec<C>| q@);
    let ghost ms = manual@.map_values(|e: (usize, Vec<C>)| (e.0, e.1@));
    let ghost keys = ms.map_values(|e: (usize, Seq<C>)| e.0);
    let n = manual.len();
    // stable order of the manual crops by photo index
    let mut order: Vec<usize> = Vec::new();
    let mut i: usize = 0;
    while i < n
        invariant
            i <= n,
            n == manual@.len(),
            ms == manual@.map_values(|e: (usize, Vec<C>)| (e.0, e.1@)),
            keys == ms.map_values(|e: (usize, Seq<C>)| e.0),
            order@.map_values(|p: usize| p as int) == stable_order(keys, i as int),
            forall|j: int| 0 <= j < order@.len() ==> (#[trigger] order@[j]) < i,
        decreases n - i,
    {
        let key = manual[i].0;
        proof {
            lemma_stable_order_range(keys, i as int);
        }
        let mut j: usize = 0;
        while j < order.len() && manual[order[j]].0 <= key
            invariant
                j <= order@.len(),
                i < n,
                n == manual@.len(),
                ms == manual@.map_values(|e: (usize, Vec<C>)| (e.0, e.1@)),
                keys == ms.map_values(|e: (usize, Seq<C>)| e.0),
                key == keys[i as int],
                forall|t: int| 0 <= t < order@.len() ==> (#[trigger] order@[t]) < i,
                forall|t: int| 0 <= t < j ==> keys[#[trigger] order@[t] as int] <= key,
            decreases order@.len() - j,
        {
            j += 1;
        }
        let ghost before = order@.map_values(|p: usize| p as int);
        order.insert(j, i);
        proof {
            assert forall|t: int| 0 <= t < j implies keys[#[trigger] before[t]] <= keys[i as int] by {
                assert(before[t] == order@[t] as int);
            }
            if j < before.len() {
                assert(keys[before[j as int]] > keys[i as int]);
            }
            lemma_insert_by_key(keys, before, i as int, j as int);
            assert(order@.map_values(|p: usize| p as int) =~= before.insert(j as int, i as int));
        }
        i += 1;
    }
    proof {
        lemma_stable_order_range(keys, n as int);
    }
    // lay the crops over the detected boxes
    let mut boxes: Vec<Vec<C>> = Vec::new();
    let mut t: usize = 0;
    while t < quads.len()
        invariant
            t <= quads@.len(),
            qs == quads@.map_values(|q: Vec<C>| q@),
            boxes@.map_values(|q: Vec<C>| q@) == qs.subrange(0, t as int),
        decreases quads@.len() - t,
    {
        let c = copy_flat(&quads[t]);
        assert(c@ == qs[t as int]);
        let ghost bv = boxes@.map_values(|q: Vec<C>| q@);
        boxes.push(c);
        assert(boxes@.map_values(|q: Vec<C>| q@) =~= bv.push(qs[t as int]));
        assert(qs.subrange(0, t + 1) =~= qs.subrange(0, t as int).push(qs[t as int]));
        t += 1;
    }
    let mut flags: Vec<bool> = vec![false; quads.len()];
    proof {
        assert(boxes@.map_values(|q: Vec<C>| q@) =~= qs);
        assert(flags@ =~= Seq::new(qs.len(), |i: int| false));
    }
    let ghost ord = order@.map_values(|p: usize| p as int);
    let mut k: usize = 0;
    while k < n
        invariant
            k <= n,
            n == manual@.len(),
            order@.len() == n,
            ord == order@.map_values(|p: usize| p as int),
            ord == stable_order(keys, n as int),
            forall|j: int| 0 <= j < n ==> 0 <= #[trigger] ord[j] < n,
            ms == manual@.map_values(|e: (usize, Vec<C>)| (e.0, e.1@)),
            qs == quads@.map_values(|q: Vec<C>| q@),
            (boxes@.map_values(|q: Vec<C>| q@), flags@) == overlay_after(qs, ms, ord, k as int),
        decreases n - k,
    {
        let p = order[k];
        assert(ord[k as int] == p as int);
        let idx = manual[p].0;
        let flat = &manual[p].1;
        let ghost bv = boxes@.map_values(|q: Vec<C>| q@);
        proof {
            lemma_overlay_lengths(qs, ms, ord, k as int);
        }
        if flat.len() == 8 {
            if idx < boxes.len() {
                boxes.set(idx, copy_flat(flat));
                flags.set(idx, true);
                proof {
                    assert(boxes@.map_values(|q: Vec<C>| q@) =~= bv.update(idx as int, flat@));
                }
            } else {
                boxes.push(copy_flat(flat));
                flags.push(true);
                proof {
                    assert(boxes@.map_values(|q: Vec<C>| q@) =~= bv.push(flat@));
                }
            }
        }
        k += 1;
    }
    (boxes, flags)
}

/// Error text for a quad that is not 8 coordinates.
pub open spec fn bad_quad_text() -> Seq<char> {
    "quad must have 8 coordinates"@
}

/// Accepts a page-space quad given as 8 coordinates (TL TR BR BL as x, y pairs).
pub fn check_quad<C>(quad: &Vec<C>) -> (r: Result<(), String>)
    ensures
        r is Ok <==> quad@.len() == 8,
        r matches Err(e) ==> e@ == bad_quad_text(),
{
    proof {
        reveal_strlit("quad must have 8 coordinates");
    }
    if quad.len() != 8 {
        return Err(String::from_str("quad must have 8 coordinates"));
    }
    Ok(())
}

/// Accepts a list of quads when every one has 8 coordinates.
pub fn check_quads<C>(quads: &Vec<Vec<C>>) -> (r: Result<(), String>)
    ensures
        r is Ok <==> forall|i: int| 0 <= i < quads@.len() ==> (#[trigger] quads@[i])@.len() == 8,
        r matches Err(e) ==> e@ == bad_quad_text(),
{
    let mut i: usize = 0;
    while i < quads.len()
        invariant
            i <= quads@.len(),
            forall|j: int| 0 <= j < i ==> (#[trigger] quads@[j])@.len() == 8,
        decreases quads@.len() - i,
    {
        match check_quad(&quads[i]) {
            Ok(()) => {},
            Err(e) => {
                return Err(e);
            },
        }
        i += 1;
    }
    Ok(())
}

/// How the sheet preview draws one box.
pub struct BoxStyle {
    /// Green when set, orange otherwise.
    pub green: bool,
    pub thickness: i32,
    pub label: String,
}

/// Whether box `i` is a manual one: its flag is set (a missing flag counts as unset).
pub open spec fn is_manual_box(i: int, manual: Seq<bool>) -> bool {
    i < manual.len() && manual[i]
}

/// How the preview draws box `i` given the manual flags: a manual box is green,
/// 5 px thick and labelled `#<i> manual`; any other box is green when `i` is even and
/// orange when odd, 3 px thick, labelled `#<i>`.
pub fn box_style(i: usize, manual: &Vec<bool>) -> (st: BoxStyle)
    ensures
        st.green == (is_manual_box(i as int, manual@) || i % 2 == 0),
        st.thickness == if is_manual_box(i as int, manual@) { 5int } else { 3int },
        st.label@ == if is_manual_box(i as int, manual@) {
            "#"@ + decimal(i as nat) + " manual"@
        } else {
            "#"@ + decimal(i as nat)
        },
{
    let is_manual = i < manual.len() && manual[i];
    let mut label = String::from_str("#");
    push_decimal(&mut label, i);
    if is_manual {
        label.append(" manual");
    }
    BoxStyle { green: is_manual || i % 2 == 0, thickness: if is_manual { 5 } else { 3 }, label }
}

/// Positions in `s` come in increasing key order, and in increasing position among
/// equal keys.
pub open spec fn ordered_by_key(keys: Seq<usize>, s: Seq<int>) -> bool {
    forall|a: int, b: int|
        #![trigger s[a], s[b]]
        0 <= a < b < s.len() ==> keys[s[a]] < keys[s[b]] || (keys[s[a]] == keys[s[b]] && s[a] < s[b])
}

proof fn lemma_insert_by_key_all(keys: Seq<usize>, s: Seq<int>, pos: int, p: spec_fn(int) -> bool)
    requires
        forall|j: int| 0 <= j < s.len() ==> p(#[trigger] s[j]),
        p(pos),
    ensures
        forall|j: int|
            0 <= j < insert_by_key(keys, s, pos).len() ==> p(#[trigger] insert_by_key(keys, s, pos)[j]),
    decreases s.len(),
{
    let r = insert_by_key(keys, s, pos);
    if s.len() == 0 {
    } else if keys[s[0]] > keys[pos] {
        assert forall|j: int| 0 <= j < r.len() implies p(#[trigger] r[j]) by {
            if j > 0 {
                assert(r[j] == s[j - 1]);
            }
        }
    } else {
        let t = insert_by_key(keys, s.drop_first(), pos);
        assert forall|j: int| 0 <= j < s.drop_first().len() implies p(#[trigger] s.drop_first()[j]) by {
            assert(s.drop_first()[j] == s[j + 1]);
        }
        lemma_insert_by_key_all(keys, s.drop_first(), pos, p);
        assert forall|j: int| 0 <= j < r.len() implies p(#[trigger] r[j]) by {
            if j > 0 {
                assert(r[j] == t[j - 1]);
            }
        }
    }
}

proof fn lemma_insert_by_key_members(keys: Seq<usize>, s: Seq<int>, pos: int)
    ensures
        insert_by_key(keys, s, pos).contains(pos),
        forall|x: int| s.contains(x) ==> insert_by_key(keys, s, pos).contains(x),
    decreases s.len(),
{
    let r = insert_by_key(keys, s, pos);
    if s.len() == 0 {
        assert(r[0] == pos);
    } else if keys[s[0]] > keys[pos] {
        assert(r[0] == pos);
        assert forall|x: int| s.contains(x) implies r.contains(x) by {
            let j = choose|j: int| 0 <= j < s.len() && s[j] == x;
            assert(r[j + 1] == x);
        }
    } else {
        let t = insert_by_key(keys, s.drop_first(), pos);
        lemma_insert_by_key_members(keys, s.drop_first(), pos);
        let tj = choose|j: int| 0 <= j < t.len() && t[j] == pos;
        assert(r[tj + 1] == pos);
        assert forall|x: int| s.contains(x) implies r.contains(x) by {
            let j = choose|j: int| 0 <= j < s.len() && s[j] == x;
            if j == 0 {
                assert(r[0] == x);
            } else {
                assert(s.drop_first()[j - 1] == x);
                assert(s.drop_first().contains(x));
                let u = choose|u: int| 0 <= u < t.len() && t[u] == x;
                assert(r[u + 1] == x);
            }
        }
    }
}

proof fn lemma_insert_by_key_ordered(keys: Seq<usize>, s: Seq<int>, pos: int)
    requires
        ordered_by_key(keys, s),
        forall|j: int| 0 <= j < s.len() ==> #[trigger] s[j] < pos,
    ensures
        ordered_by_key(keys, insert_by_key(keys, s, pos)),
    decreases s.len(),
{
    let r = insert_by_key(keys, s, pos);
    if s.len() == 0 {
    } else if keys[s[0]] > keys[pos] {
        assert forall|a: int, b: int|
            #![trigger r[a], r[b]]
            0 <= a < b < r.len() implies keys[r[a]] < keys[r[b]] || (keys[r[a]] == keys[r[b]] && r[a] < r[b]) by {
            assert(r[b] == s[b - 1]);
            if a == 0 {
                if b > 1 {
                    assert(keys[s[0]] <= keys[s[b - 1]]);
                }
            } else {
                assert(r[a] == s[a - 1]);
            }
        }
    } else {
        let d = s.drop_first();
        let t = insert_by_key(keys, d, pos);
        assert forall|a: int, b: int|
            #![trigger d[a], d[b]]
            0 <= a < b < d.len() implies keys[d[a]] < keys[d[b]] || (keys[d[a]] == keys[d[b]] && d[a] < d[b]) by {
            assert(d[a] == s[a + 1] && d[b] == s[b + 1]);
        }
        assert forall|j: int| 0 <= j < d.len() implies #[trigger] d[j] < pos by {
            assert(d[j] == s[j + 1]);
        }
        lemma_insert_by_key_ordered(keys, d, pos);
        let head = s[0];
        let after_head = |x: int| keys[head] < keys[x] || (keys[head] == keys[x] && head < x);
        assert forall|j: int| 0 <= j < d.len() implies after_head(#[trigger] d[j]) by {
            assert(d[j] == s[j + 1]);
        }
        lemma_insert_by_key_all(keys, d, pos, after_head);
        assert forall|a: int, b: int|
            #![trigger r[a], r[b]]
            0 <= a < b < r.len() implies keys[r[a]] < keys[r[b]] || (keys[r[a]] == keys[r[b]] && r[a] < r[b]) by {
            assert(r[b] == t[b - 1]);
            if a == 0 {
                assert(after_head(t[b - 1]));
            } else {
                assert(r[a] == t[a - 1]);
            }
        }
    }
}

proof fn lemma_stable_order_sound(keys: Seq<usize>, n: int)
    requires
        n >= 0,
    ensures
        ordered_by_key(keys, stable_order(keys, n)),
        forall|m: int| 0 <= m < n ==> #[trigger] stable_order(keys, n).contains(m),
    decreases n,
{
    if n > 0 {
        let s = stable_order(keys, n - 1);
        lemma_stable_order_sound(keys, n - 1);
        lemma_stable_order_range(keys, n - 1);
        lemma_insert_by_key_ordered(keys, s, n - 1);
        lemma_insert_by_key_members(keys, s, n - 1);
        assert forall|m: int| 0 <= m < n implies #[trigger] stable_order(keys, n).contains(m) by {
            if m < n - 1 {
                assert(s.contains(m));
            }
        }
    }
}

proof fn lemma_overlay_grows<C>(quads: Seq<Seq<C>>, manual: Seq<(usize, Seq<C>)>, order: Seq<int>, k: int)
    ensures
        overlay_after(quads, manual, order, k).0.len() >= quads.len(),
        overlay_after(quads, manual, order, k).0.len() == overlay_after(quads, manual, order, k).1.len(),
    decreases k,
{
    if k > 0 {
        lemma_overlay_grows(quads, manual, order, k - 1);
    }
}

proof fn lemma_overlay_untouched<C>(quads: Seq<Seq<C>>, manual: Seq<(usize, Seq<C>)>, order: Seq<int>, k: int, p: int)
    requires
        0 <= p < quads.len(),
        forall|t: int| 0 <= t < k ==> !(manual[#[trigger] order[t]].0 == p && manual[order[t]].1.len() == 8),
    ensures
        overlay_after(quads, manual, order, k).0[p] == quads[p],
        !overlay_after(quads, manual, order, k).1[p],
    decreases k,
{
    if k > 0 {
        lemma_overlay_untouched(quads, manual, order, k - 1, p);
        lemma_overlay_grows(quads, manual, order, k - 1);
        assert(!(manual[order[k - 1]].0 == p && manual[order[k - 1]].1.len() == 8));
    }
}

proof fn lemma_overlay_settled<C>(
    quads: Seq<Seq<C>>,
    manual: Seq<(usize, Seq<C>)>,
    order: Seq<int>,
    t: int,
    k: int,
    idx: int,
)
    requires
        0 <= t < k,
        0 <= idx < quads.len(),
        manual[order[t]].0 == idx,
        manual[order[t]].1.len() == 8,
        forall|u: int| t < u < k ==> !(manual[#[trigger] order[u]].0 == idx && manual[order[u]].1.len() == 8),
    ensures
        overlay_after(quads, manual, order, k).0[idx] == manual[order[t]].1,
        overlay_after(quads, manual, order, k).1[idx],
    decreases k,
{
    lemma_overlay_grows(quads, manual, order, k - 1);
    if k > t + 1 {
        lemma_overlay_settled(quads, manual, order, t, k - 1, idx);
        assert(!(manual[order[k - 1]].0 == idx && manual[order[k - 1]].1.len() == 8));
    }
}

/// A detected box that no manual crop with 8 coordinates names keeps its place in
/// the preview, unflagged; the preview never has fewer boxes than were detected.
pub proof fn lemma_detected_box_kept<C>(quads: Seq<Seq<C>>, manual: Seq<(usize, Seq<C>)>, p: int)
    requires
        0 <= p < quads.len(),
        forall|j: int| 0 <= j < manual.len() ==> !((#[trigger] manual[j]).0 == p && manual[j].1.len() == 8),
    ensures
        overlay_spec(quads, manual).0.len() >= quads.len(),
        overlay_spec(quads, manual).0[p] == quads[p],
        !overlay_spec(quads, manual).1[p],
{
    let keys = manual.map_values(|e: (usize, Seq<C>)| e.0);
    let n = manual.len() as int;
    let o = stable_order(keys, n);
    lemma_stable_order_range(keys, n);
    lemma_overlay_grows(quads, manual, o, n);
    assert forall|t: int| 0 <= t < n implies !(manual[#[trigger] o[t]].0 == p && manual[o[t]].1.len() == 8) by {
        assert(0 <= o[t] < n);
    }
    lemma_overlay_untouched(quads, manual, o, n, p);
}

/// A manual crop with 8 coordinates for a photo index among the detected boxes
/// replaces that box in the preview, flagged as manual, unless a later crop with
/// 8 coordinates names the same index.
pub proof fn lemma_manual_crop_kept<C>(quads: Seq<Seq<C>>, manual: Seq<(usize, Seq<C>)>, m: int)
    requires
        0 <= m < manual.len(),
        manual[m].1.len() == 8,
        manual[m].0 < quads.len(),
        forall|j: int|
            m < j < manual.len() ==> !((#[trigger] manual[j]).0 == manual[m].0 && manual[j].1.len() == 8),
    ensures
        overlay_spec(quads, manual).0[manual[m].0 as int] == manual[m].1,
        overlay_spec(quads, manual).1[manual[m].0 as int],
{
    let keys = manual.map_values(|e: (usize, Seq<C>)| e.0);
    let n = manual.len() as int;
    let o = stable_order(keys, n);
    let idx = manual[m].0 as int;
    lemma_stable_order_range(keys, n);
    lemma_stable_order_sound(keys, n);
    assert(o.contains(m));
    let t = choose|t: int| 0 <= t < o.len() && o[t] == m;
    assert forall|u: int| t < u < n implies !(manual[#[trigger] o[u]].0 == idx && manual[o[u]].1.len() == 8) by {
        let x = o[u];
        assert(0 <= x < n);
        if manual[x].0 == idx {
            assert(keys[x] == manual[x].0);
            assert(keys[m] == manual[m].0);
            assert(keys[o[t]] < keys[o[u]] || (keys[o[t]] == keys[o[u]] && o[t] < o[u]));
        }
    }
    lemma_overlay_settled(quads, manual, o, t, n, idx);
}

} // verus!
