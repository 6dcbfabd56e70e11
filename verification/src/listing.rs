use vstd::multiset::Multiset;
use vstd::prelude::*;
use vstd::string::StringExecFns;

use crate::decimal::chars_of;
use crate::game::distinct_ids;
use crate::game::has_id;
use crate::game::index_of_id;
use crate::game::lemma_entry_in_map;
use crate::game::levels_map;
use crate::level_checker::text_equal;
use crate::game::selected_level_message;
use crate::game::with_current;
use crate::game::JsonData;
use crate::game::LevelEntry;
use crate::level_checker::Level;

verus! {

broadcast use vstd::seq_lib::group_to_multiset_ensures;

/// Whether `a` comes no later than `b` in the order of `String`: character by character, by
/// code point, a text coming before every longer text that starts with it.
pub open spec fn text_le(a: Seq<char>, b: Seq<char>) -> bool
    decreases a.len(),
{
    if a.len() == 0 {
        true
    } else if b.len() == 0 {
        false
    } else if a[0] != b[0] {
        a[0] < b[0]
    } else {
        text_le(a.drop_first(), b.drop_first())
    }
}

/// Every text of `s` comes no later than every text after it.
pub open spec fn texts_sorted(s: Seq<String>) -> bool {
    forall|i: int, j: int| 0 <= i < j < s.len() ==> text_le((#[trigger] s[i])@, (#[trigger] s[j])@)
}

/// The views of a list of texts.
pub open spec fn text_views(s: Seq<String>) -> Seq<Seq<char>> {
    s.map_values(|t: String| t@)
}

/// Of two texts, one comes no later than the other.
pub proof fn lemma_text_le_total(a: Seq<char>, b: Seq<char>)
    ensures
        text_le(a, b) || text_le(b, a),
    decreases a.len(),
{
    if a.len() > 0 && b.len() > 0 && a[0] == b[0] {
        lemma_text_le_total(a.drop_first(), b.drop_first());
    }
}

/// The order of texts is transitive.
pub proof fn lemma_text_le_transitive(a: Seq<char>, b: Seq<char>, c: Seq<char>)
    requires
        text_le(a, b),
        text_le(b, c),
    ensures
        text_le(a, c),
    decreases a.len(),
{
    if a.len() > 0 && b.len() > 0 && c.len() > 0 && a[0] == b[0] && b[0] == c[0] {
        lemma_text_le_transitive(a.drop_first(), b.drop_first(), c.drop_first());
    }
}

/// Two texts that each come no later than the other are equal.
pub proof fn lemma_text_le_antisymmetric(a: Seq<char>, b: Seq<char>)
    requires
        text_le(a, b),
        text_le(b, a),
    ensures
        a == b,
    decreases a.len(),
{
    if a.len() > 0 && b.len() > 0 {
        lemma_text_le_antisymmetric(a.drop_first(), b.drop_first());
        assert(a =~= seq![a[0]] + a.drop_first());
        assert(b =~= seq![b[0]] + b.drop_first());
    }
}

/// Whether `a` comes no later than `b` in the order of `String`.
pub fn text_le_exec(a: &str, b: &str) -> (r: bool)
    ensures
        r == text_le(a@, b@),
{
    let ca = chars_of(a);
    let cb = chars_of(b);
    let mut i: usize = 0;
    assert(a@.skip(0) =~= a@);
    assert(b@.skip(0) =~= b@);
    while i < ca.len() && i < cb.len()
        invariant
            ca@ == a@,
            cb@ == b@,
            i <= ca@.len(),
            i <= cb@.len(),
            text_le(a@, b@) == text_le(a@.skip(i as int), b@.skip(i as int)),
        decreases ca.len() - i,
    {
        if ca[i] != cb[i] {
            let x = ca[i];
            let y = cb[i];
            assert(a@.skip(i as int)[0] == x);
            assert(b@.skip(i as int)[0] == y);
            return x < y;
        }
        assert(a@.skip(i as int).drop_first() =~= a@.skip(i + 1));
        assert(b@.skip(i as int).drop_first() =~= b@.skip(i + 1));
        i = i + 1;
    }
    ca.len() <= cb.len()
}

/// Sorts texts in the order of `String`.
pub fn sort_texts(items: Vec<String>) -> (sorted: Vec<String>)
    ensures
        texts_sorted(sorted@),
        sorted@.to_multiset() == items@.to_multiset(),
        text_views(sorted@).to_multiset() == text_views(items@).to_multiset(),
{
    let ghost initial = items@;
    let mut rest = items;
    let mut sorted: Vec<String> = Vec::new();
    while rest.len() > 0
        invariant
            texts_sorted(sorted@),
            sorted@.to_multiset().add(rest@.to_multiset()) == initial.to_multiset(),
            text_views(sorted@).to_multiset().add(text_views(rest@).to_multiset()) == text_views(
                initial,
            ).to_multiset(),
        decreases rest.len(),
    {
        let ghost before = rest@;
        let x = rest.pop().unwrap();
        assert(before =~= rest@.push(x));
        let mut p: usize = 0;
        while p < sorted.len() && text_le_exec(sorted[p].as_str(), x.as_str())
            invariant
                p <= sorted@.len(),
                forall|q: int| 0 <= q < p ==> text_le((#[trigger] sorted@[q])@, x@),
            decreases sorted.len() - p,
        {
            p = p + 1;
        }
        let ghost old_sorted = sorted@;
        proof {
            if p < sorted@.len() {
                lemma_text_le_total(sorted@[p as int]@, x@);
            }
        }
        sorted.insert(p, x);
        proof {
            assert forall|i: int, j: int| 0 <= i < j < sorted@.len() implies text_le(
                (#[trigger] sorted@[i])@,
                (#[trigger] sorted@[j])@,
            ) by {
                if j < p {
                    assert(sorted@[i] == old_sorted[i] && sorted@[j] == old_sorted[j]);
                } else if j == p {
                    assert(sorted@[i] == old_sorted[i]);
                } else if i == p {
                    assert(sorted@[j] == old_sorted[j - 1]);
                    if j - 1 > p {
                        assert(text_le(old_sorted[p as int]@, old_sorted[j - 1]@));
                        lemma_text_le_transitive(x@, old_sorted[p as int]@, old_sorted[j - 1]@);
                    }
                } else if i < p {
                    assert(sorted@[i] == old_sorted[i] && sorted@[j] == old_sorted[j - 1]);
                } else {
                    assert(sorted@[i] == old_sorted[i - 1] && sorted@[j] == old_sorted[j - 1]);
                }
            }
            assert(sorted@.to_multiset() == old_sorted.to_multiset().insert(x));
            assert(before.to_multiset() == rest@.to_multiset().insert(x));
            assert(sorted@.to_multiset().add(rest@.to_multiset()) =~= old_sorted.to_multiset().add(
                before.to_multiset(),
            ));
            assert(text_views(sorted@) =~= text_views(old_sorted).insert(p as int, x@));
            assert(text_views(before) =~= text_views(rest@).push(x@));
            assert(text_views(sorted@).to_multiset() == text_views(old_sorted).to_multiset().insert(
                x@,
            ));
            assert(text_views(before).to_multiset() == text_views(rest@).to_multiset().insert(x@));
            assert(text_views(sorted@).to_multiset().add(text_views(rest@).to_multiset())
                =~= text_views(old_sorted).to_multiset().add(text_views(before).to_multiset()));
        }
    }
    assert(rest@.to_multiset() =~= Multiset::empty());
    assert(sorted@.to_multiset().add(rest@.to_multiset()) =~= sorted@.to_multiset());
    assert(text_views(rest@).to_multiset() =~= Multiset::empty());
    assert(text_views(sorted@).to_multiset().add(text_views(rest@).to_multiset())
        =~= text_views(sorted@).to_multiset());
    sorted
}


/// `order` names every identifier of `levels` exactly once.
pub open spec fn enumerates_ids(order: Seq<Seq<char>>, levels: Map<Seq<char>, Level>) -> bool {
    &&& order.no_duplicates()
    &&& forall|k: Seq<char>| levels.contains_key(k) <==> order.contains(k)
}

/// How a level is listed in the level menu: its identifier, a colon, a space, then its title.
pub open spec fn menu_text(id: Seq<char>, level: Level) -> Seq<char> {
    id + ": "@ + level.level_title@
}

/// The identifiers of a list of entries.
pub open spec fn entry_ids(entries: Seq<LevelEntry>) -> Seq<Seq<char>> {
    entries.map_values(|e: LevelEntry| e.id@)
}

/// The identifiers of distinct entries name the keys of their map exactly once.
proof fn lemma_entry_ids_enumerate(entries: Seq<LevelEntry>)
    requires
        distinct_ids(entries),
    ensures
        enumerates_ids(entry_ids(entries), levels_map(entries)),
{
    let ids = entry_ids(entries);
    assert forall|k: Seq<char>| levels_map(entries).contains_key(k) <==> ids.contains(k) by {
        if has_id(entries, k) {
            let j = index_of_id(entries, k);
            assert(ids[j] == k);
        }
        if ids.contains(k) {
            let j = choose|j: int| 0 <= j < ids.len() && ids[j] == k;
            assert(entries[j].id@ == k);
        }
    }
}

/// A list with the same elements, counted, as a list that names every identifier once names
/// every identifier once too.
proof fn lemma_same_multiset_enumerates(
    a: Seq<Seq<char>>,
    b: Seq<Seq<char>>,
    levels: Map<Seq<char>, Level>,
)
    requires
        enumerates_ids(a, levels),
        b.to_multiset() == a.to_multiset(),
    ensures
        enumerates_ids(b, levels),
{
    a.lemma_multiset_has_no_duplicates();
    b.lemma_multiset_has_no_duplicates_conv();
    assert forall|k: Seq<char>| levels.contains_key(k) <==> b.contains(k) by {
        assert(a.contains(k) <==> a.to_multiset().count(k) > 0);
        assert(b.contains(k) <==> b.to_multiset().count(k) > 0);
    }
}

/// Every element of `s` comes no later than every element after it, by `le`.
pub open spec fn sorted_by(s: Seq<Seq<char>>, le: spec_fn(Seq<char>, Seq<char>) -> bool) -> bool {
    forall|i: int, j: int| 0 <= i < j < s.len() ==> le(#[trigger] s[i], #[trigger] s[j])
}

/// Two texts that each come no later than the other, by `le`, are equal.
pub open spec fn antisymmetric(le: spec_fn(Seq<char>, Seq<char>) -> bool) -> bool {
    forall|x: Seq<char>, y: Seq<char>| #[trigger] le(x, y) && #[trigger] le(y, x) ==> x == y
}

/// `s` names every element of `members` exactly once, and nothing else.
pub open spec fn names_each_once(s: Seq<Seq<char>>, members: Set<Seq<char>>) -> bool {
    &&& s.no_duplicates()
    &&& forall|k: Seq<char>| members.contains(k) <==> s.contains(k)
}

/// The order of `String` on identifiers.
pub open spec fn id_le() -> spec_fn(Seq<char>, Seq<char>) -> bool {
    |x: Seq<char>, y: Seq<char>| text_le(x, y)
}

/// The order of the rows of the level menu: by the text each row shows, in the order of
/// `String`, and by identifier between rows that show the same text.
pub open spec fn row_le(levels: Map<Seq<char>, Level>, a: Seq<char>, b: Seq<char>) -> bool {
    let ta = menu_text(a, levels[a]);
    let tb = menu_text(b, levels[b]);
    text_le(ta, tb) && (ta == tb ==> text_le(a, b))
}

/// The order of the rows of the level menu, as a relation on identifiers.
pub open spec fn row_order(levels: Map<Seq<char>, Level>) -> spec_fn(Seq<char>, Seq<char>) -> bool {
    |x: Seq<char>, y: Seq<char>| row_le(levels, x, y)
}

/// `s` lists every identifier of `levels` once, in the order of `String`.
pub open spec fn is_id_order(s: Seq<Seq<char>>, levels: Map<Seq<char>, Level>) -> bool {
    sorted_by(s, id_le()) && enumerates_ids(s, levels)
}

/// The identifiers of `levels` in the order of `String`: the order of the level listing.
pub open spec fn id_order(levels: Map<Seq<char>, Level>) -> Seq<Seq<char>> {
    choose|s: Seq<Seq<char>>| is_id_order(s, levels)
}

/// `s` lists every identifier of `levels` once, in the order of the menu rows.
pub open spec fn is_menu_order(s: Seq<Seq<char>>, levels: Map<Seq<char>, Level>) -> bool {
    sorted_by(s, row_order(levels)) && enumerates_ids(s, levels)
}

/// The identifiers of `levels` in the order of their menu rows: the rows' texts in the order
/// of `String`.
pub open spec fn menu_order(levels: Map<Seq<char>, Level>) -> Seq<Seq<char>> {
    choose|s: Seq<Seq<char>>| is_menu_order(s, levels)
}

/// The order of `String` on identifiers is antisymmetric.
pub proof fn lemma_id_le_antisymmetric()
    ensures
        antisymmetric(id_le()),
{
    assert forall|x: Seq<char>, y: Seq<char>| #[trigger] id_le()(x, y) && #[trigger] id_le()(y, x) implies x == y by {
        lemma_text_le_antisymmetric(x, y);
    }
}

/// The order of the menu rows is antisymmetric on identifiers.
pub proof fn lemma_row_order_antisymmetric(levels: Map<Seq<char>, Level>)
    ensures
        antisymmetric(row_order(levels)),
{
    assert forall|x: Seq<char>, y: Seq<char>|
        #[trigger] row_order(levels)(x, y) && #[trigger] row_order(levels)(y, x) implies x == y by {
        let tx = menu_text(x, levels[x]);
        let ty = menu_text(y, levels[y]);
        lemma_text_le_antisymmetric(tx, ty);
        lemma_text_le_antisymmetric(x, y);
    }
}

/// Of two identifiers, one's row comes no later than the other's.
pub proof fn lemma_row_le_total(levels: Map<Seq<char>, Level>, a: Seq<char>, b: Seq<char>)
    ensures
        row_le(levels, a, b) || row_le(levels, b, a),
{
    let ta = menu_text(a, levels[a]);
    let tb = menu_text(b, levels[b]);
    lemma_text_le_total(ta, tb);
    lemma_text_le_total(a, b);
    if text_le(ta, tb) && text_le(tb, ta) {
        lemma_text_le_antisymmetric(ta, tb);
    }
}

/// The order of the menu rows is transitive.
pub proof fn lemma_row_le_transitive(
    levels: Map<Seq<char>, Level>,
    a: Seq<char>,
    b: Seq<char>,
    c: Seq<char>,
)
    requires
        row_le(levels, a, b),
        row_le(levels, b, c),
    ensures
        row_le(levels, a, c),
{
    let ta = menu_text(a, levels[a]);
    let tb = menu_text(b, levels[b]);
    let tc = menu_text(c, levels[c]);
    lemma_text_le_transitive(ta, tb, tc);
    if ta == tc {
        lemma_text_le_antisymmetric(ta, tb);
        lemma_text_le_transitive(a, b, c);
    }
}

/// At most one list names every member once in an antisymmetric order.
pub proof fn lemma_sorted_unique(
    a: Seq<Seq<char>>,
    b: Seq<Seq<char>>,
    members: Set<Seq<char>>,
    le: spec_fn(Seq<char>, Seq<char>) -> bool,
)
    requires
        antisymmetric(le),
        sorted_by(a, le),
        sorted_by(b, le),
        names_each_once(a, members),
        names_each_once(b, members),
    ensures
        a == b,
    decreases a.len(),
{
    if a.len() == 0 {
        if b.len() > 0 {
            assert(b.contains(b[0]));
            assert(members.contains(b[0]));
            assert(a.contains(b[0]));
        }
        assert(a =~= b);
    } else {
        let x = a[0];
        assert(a.contains(x));
        assert(b.contains(x));
        assert(b.len() > 0);
        let y = b[0];
        assert(b.contains(y));
        assert(a.contains(y));
        let i = choose|i: int| 0 <= i < a.len() && a[i] == y;
        let j = choose|j: int| 0 <= j < b.len() && b[j] == x;
        if i != 0 && j != 0 {
            assert(le(a[0], a[i]));
            assert(le(b[0], b[j]));
        }
        assert(x == y);
        let rest = members.remove(x);
        let ta = a.drop_first();
        let tb = b.drop_first();
        assert forall|k: Seq<char>| rest.contains(k) <==> ta.contains(k) by {
            if ta.contains(k) {
                let p = choose|p: int| 0 <= p < ta.len() && ta[p] == k;
                assert(a[p + 1] == k);
                assert(a.contains(k));
            }
            if rest.contains(k) {
                assert(a.contains(k));
                let p = choose|p: int| 0 <= p < a.len() && a[p] == k;
                assert(p != 0);
                assert(ta[p - 1] == k);
            }
        }
        assert forall|k: Seq<char>| rest.contains(k) <==> tb.contains(k) by {
            if tb.contains(k) {
                let p = choose|p: int| 0 <= p < tb.len() && tb[p] == k;
                assert(b[p + 1] == k);
                assert(b.contains(k));
            }
            if rest.contains(k) {
                assert(b.contains(k));
                let p = choose|p: int| 0 <= p < b.len() && b[p] == k;
                assert(p != 0);
                assert(tb[p - 1] == k);
            }
        }
        assert(sorted_by(ta, le)) by {
            assert forall|p: int, q: int| 0 <= p < q < ta.len() implies le(
                #[trigger] ta[p],
                #[trigger] ta[q],
            ) by {
                assert(ta[p] == a[p + 1] && ta[q] == a[q + 1]);
            }
        }
        assert(sorted_by(tb, le)) by {
            assert forall|p: int, q: int| 0 <= p < q < tb.len() implies le(
                #[trigger] tb[p],
                #[trigger] tb[q],
            ) by {
                assert(tb[p] == b[p + 1] && tb[q] == b[q + 1]);
            }
        }
        assert(ta.no_duplicates()) by {
            assert forall|p: int, q: int|
                0 <= p < ta.len() && 0 <= q < ta.len() && p != q implies ta[p] != ta[q] by {
                assert(ta[p] == a[p + 1] && ta[q] == a[q + 1]);
            }
        }
        assert(tb.no_duplicates()) by {
            assert forall|p: int, q: int|
                0 <= p < tb.len() && 0 <= q < tb.len() && p != q implies tb[p] != tb[q] by {
                assert(tb[p] == b[p + 1] && tb[q] == b[q + 1]);
            }
        }
        lemma_sorted_unique(ta, tb, rest, le);
        assert(a =~= seq![x] + ta);
        assert(b =~= seq![y] + tb);
    }
}

/// A list that names every identifier once names every key of the map once.
proof fn lemma_enumerates_names_keys(s: Seq<Seq<char>>, levels: Map<Seq<char>, Level>)
    requires
        enumerates_ids(s, levels),
    ensures
        names_each_once(s, levels.dom()),
{
}

/// At most one list names every identifier once in the order of `String`.
pub proof fn lemma_id_order_unique(a: Seq<Seq<char>>, b: Seq<Seq<char>>, levels: Map<Seq<char>, Level>)
    requires
        is_id_order(a, levels),
        is_id_order(b, levels),
    ensures
        a == b,
{
    lemma_id_le_antisymmetric();
    lemma_enumerates_names_keys(a, levels);
    lemma_enumerates_names_keys(b, levels);
    lemma_sorted_unique(a, b, levels.dom(), id_le());
}

/// At most one list names every identifier once in the order of the menu rows: the menu
/// order is determined by the levels.
pub proof fn lemma_menu_order_unique(
    a: Seq<Seq<char>>,
    b: Seq<Seq<char>>,
    levels: Map<Seq<char>, Level>,
)
    requires
        is_menu_order(a, levels),
        is_menu_order(b, levels),
    ensures
        a == b,
{
    lemma_row_order_antisymmetric(levels);
    lemma_enumerates_names_keys(a, levels);
    lemma_enumerates_names_keys(b, levels);
    lemma_sorted_unique(a, b, levels.dom(), row_order(levels));
}

/// A sorted list of texts lists its views in sorted order.
proof fn lemma_views_sorted(s: Seq<String>)
    requires
        texts_sorted(s),
    ensures
        sorted_by(text_views(s), id_le()),
{
    let v = text_views(s);
    assert forall|i: int, j: int| 0 <= i < j < v.len() implies id_le()(#[trigger] v[i], #[trigger] v[j]) by {
        assert(v[i] == s[i]@ && v[j] == s[j]@);
    }
}

/// Where a list is the identifier order, it is `id_order`.
proof fn lemma_is_the_id_order(s: Seq<Seq<char>>, levels: Map<Seq<char>, Level>)
    requires
        is_id_order(s, levels),
    ensures
        id_order(levels) == s,
{
    lemma_id_order_unique(id_order(levels), s, levels);
}

/// Where a list is the menu order, it is `menu_order`.
proof fn lemma_is_the_menu_order(s: Seq<Seq<char>>, levels: Map<Seq<char>, Level>)
    requires
        is_menu_order(s, levels),
    ensures
        menu_order(levels) == s,
{
    lemma_menu_order_unique(menu_order(levels), s, levels);
}

/// Every text of `s` names a level.
pub open spec fn all_level_ids(s: Seq<String>, levels: Map<Seq<char>, Level>) -> bool {
    forall|i: int| 0 <= i < s.len() ==> levels.contains_key(#[trigger] s[i]@)
}

impl JsonData {
    /// The identifiers of all levels, in the order of `String`.
    pub fn sorted_level_ids(&self) -> (ids: Vec<String>)
        ensures
            texts_sorted(ids@),
            enumerates_ids(text_views(ids@), self@.levels),
            text_views(ids@) == id_order(self@.levels),
    {
        let entries = self.entries();
        let mut ids: Vec<String> = Vec::new();
        let n = entries.len();
        let mut i: usize = 0;
        while i < n
            invariant
                n == entries@.len(),
                i <= n,
                text_views(ids@) =~= entry_ids(entries@).take(i as int),
            decreases n - i,
        {
            let id = entries[i].id.clone();
            assert(id@ == entry_ids(entries@)[i as int]);
            let ghost before = ids@;
            ids.push(id);
            assert(text_views(ids@) =~= text_views(before).push(id@));
            assert(entry_ids(entries@).take(i + 1) =~= entry_ids(entries@).take(i as int).push(id@));
            i = i + 1;
        }
        assert(text_views(ids@) =~= entry_ids(entries@));
        let sorted = sort_texts(ids);
        proof {
            lemma_entry_ids_enumerate(entries@);
            lemma_same_multiset_enumerates(entry_ids(entries@), text_views(sorted@), self@.levels);
            lemma_views_sorted(sorted@);
            lemma_is_the_id_order(text_views(sorted@), self@.levels);
        }
        sorted
    }

    /// The text of the menu row of level `id`.
    fn row_text(&self, id: &String) -> (text: String)
        requires
            self@.levels.contains_key(id@),
        ensures
            text@ == menu_text(id@, self@.levels[id@]),
    {
        let level = self.level(id.as_str()).unwrap();
        id.clone().concat(": ").concat(level.level_title.as_str())
    }

    /// Whether the menu row of level `a` comes no later than that of level `b`.
    fn row_le_exec(&self, a: &String, b: &String) -> (r: bool)
        requires
            self@.levels.contains_key(a@),
            self@.levels.contains_key(b@),
        ensures
            r == row_le(self@.levels, a@, b@),
    {
        let ta = self.row_text(a);
        let tb = self.row_text(b);
        if !text_le_exec(ta.as_str(), tb.as_str()) {
            return false;
        }
        if text_equal(ta.as_str(), tb.as_str()) {
            text_le_exec(a.as_str(), b.as_str())
        } else {
            true
        }
    }

    /// Sorts identifiers of levels in the order of their menu rows.
    fn sort_by_rows(&self, ids: Vec<String>) -> (sorted: Vec<String>)
        requires
            all_level_ids(ids@, self@.levels),
        ensures
            all_level_ids(sorted@, self@.levels),
            sorted_by(text_views(sorted@), row_order(self@.levels)),
            text_views(sorted@).to_multiset() == text_views(ids@).to_multiset(),
    {
        let ghost levels = self@.levels;
        let ghost initial = ids@;
        let mut rest = ids;
        let mut sorted: Vec<String> = Vec::new();
        while rest.len() > 0
            invariant
                levels == self@.levels,
                all_level_ids(rest@, levels),
                all_level_ids(sorted@, levels),
                forall|i: int, j: int|
                    0 <= i < j < sorted@.len() ==> row_le(
                        levels,
                        (#[trigger] sorted@[i])@,
                        (#[trigger] sorted@[j])@,
                    ),
                text_views(sorted@).to_multiset().add(text_views(rest@).to_multiset()) == text_views(
                    initial,
                ).to_multiset(),
            decreases rest.len(),
        {
            let ghost before = rest@;
            let x = rest.pop().unwrap();
            assert(before =~= rest@.push(x));
            assert(levels.contains_key(before[before.len() - 1]@));
            let mut p: usize = 0;
            while p < sorted.len() && self.row_le_exec(&sorted[p], &x)
                invariant
                    levels == self@.levels,
                    all_level_ids(sorted@, levels),
                    levels.contains_key(x@),
                    p <= sorted@.len(),
                    forall|q: int| 0 <= q < p ==> row_le(levels, (#[trigger] sorted@[q])@, x@),
                decreases sorted.len() - p,
            {
                p = p + 1;
            }
            let ghost old_sorted = sorted@;
            proof {
                if p < sorted@.len() {
                    lemma_row_le_total(levels, sorted@[p as int]@, x@);
                }
            }
            sorted.insert(p, x);
            proof {
                assert forall|i: int, j: int| 0 <= i < j < sorted@.len() implies row_le(
                    levels,
                    (#[trigger] sorted@[i])@,
                    (#[trigger] sorted@[j])@,
                ) by {
                    if j < p {
                        assert(sorted@[i] == old_sorted[i] && sorted@[j] == old_sorted[j]);
                    } else if j == p {
                        assert(sorted@[i] == old_sorted[i]);
                    } else if i == p {
                        assert(sorted@[j] == old_sorted[j - 1]);
                        if j - 1 > p {
                            assert(row_le(levels, old_sorted[p as int]@, old_sorted[j - 1]@));
                            lemma_row_le_transitive(
                                levels,
                                x@,
                                old_sorted[p as int]@,
                                old_sorted[j - 1]@,
                            );
                        }
                    } else if i < p {
                        assert(sorted@[i] == old_sorted[i] && sorted@[j] == old_sorted[j - 1]);
                    } else {
                        assert(sorted@[i] == old_sorted[i - 1] && sorted@[j] == old_sorted[j - 1]);
                    }
                }
                assert forall|i: int| 0 <= i < sorted@.len() implies levels.contains_key(
                    (#[trigger] sorted@[i])@,
                ) by {
                    if i < p {
                        assert(sorted@[i] == old_sorted[i]);
                    } else if i > p {
                        assert(sorted@[i] == old_sorted[i - 1]);
                    }
                }
                assert forall|i: int| 0 <= i < rest@.len() implies levels.contains_key(
                    (#[trigger] rest@[i])@,
                ) by {
                    assert(rest@[i] == before[i]);
                }
                assert(text_views(sorted@) =~= text_views(old_sorted).insert(p as int, x@));
                assert(text_views(before) =~= text_views(rest@).push(x@));
                assert(text_views(sorted@).to_multiset() == text_views(old_sorted).to_multiset().insert(
                    x@,
                ));
                assert(text_views(before).to_multiset() == text_views(rest@).to_multiset().insert(x@));
                assert(text_views(sorted@).to_multiset().add(text_views(rest@).to_multiset())
                    =~= text_views(old_sorted).to_multiset().add(text_views(before).to_multiset()));
            }
        }
        assert(text_views(rest@).to_multiset() =~= Multiset::empty());
        assert(text_views(sorted@).to_multiset().add(text_views(rest@).to_multiset())
            =~= text_views(sorted@).to_multiset());
        proof {
            let v = text_views(sorted@);
            assert forall|i: int, j: int| 0 <= i < j < v.len() implies row_order(levels)(
                #[trigger] v[i],
                #[trigger] v[j],
            ) by {
                assert(v[i] == sorted@[i]@ && v[j] == sorted@[j]@);
            }
        }
        sorted
    }

    /// The identifiers of all levels, in the order of their rows in the level menu.
    pub fn menu_level_ids(&self) -> (ids: Vec<String>)
        ensures
            text_views(ids@) == menu_order(self@.levels),
            is_menu_order(text_views(ids@), self@.levels),
    {
        let entries = self.entries();
        let mut ids: Vec<String> = Vec::new();
        let n = entries.len();
        let mut i: usize = 0;
        while i < n
            invariant
                n == entries@.len(),
                i <= n,
                distinct_ids(entries@),
                levels_map(entries@) == self@.levels,
                text_views(ids@) =~= entry_ids(entries@).take(i as int),
                all_level_ids(ids@, self@.levels),
            decreases n - i,
        {
            let id = entries[i].id.clone();
            assert(id@ == entry_ids(entries@)[i as int]);
            proof {
                lemma_entry_in_map(entries@, i as int);
            }
            let ghost before = ids@;
            ids.push(id);
            assert(text_views(ids@) =~= text_views(before).push(id@));
            assert(entry_ids(entries@).take(i + 1) =~= entry_ids(entries@).take(i as int).push(id@));
            assert forall|j: int| 0 <= j < ids@.len() implies self@.levels.contains_key(
                (#[trigger] ids@[j])@,
            ) by {
                if j < i {
                    assert(ids@[j] == before[j]);
                }
            }
            i = i + 1;
        }
        assert(text_views(ids@) =~= entry_ids(entries@));
        let sorted = self.sort_by_rows(ids);
        proof {
            lemma_entry_ids_enumerate(entries@);
            lemma_same_multiset_enumerates(entry_ids(entries@), text_views(sorted@), self@.levels);
            lemma_is_the_menu_order(text_views(sorted@), self@.levels);
        }
        sorted
    }

    /// The rows of the level menu: one per level, each showing the identifier, a colon, a
    /// space and the title, in the order of `String`.
    pub fn menu_items(&self) -> (items: Vec<String>)
        ensures
            text_views(items@) == menu_order(self@.levels).map_values(
                |k: Seq<char>| menu_text(k, self@.levels[k]),
            ),
            texts_sorted(items@),
    {
        let ids = self.menu_level_ids();
        let ghost levels = self@.levels;
        let ghost order = menu_order(levels);
        let ghost texts = order.map_values(|k: Seq<char>| menu_text(k, levels[k]));
        let mut items: Vec<String> = Vec::new();
        let n = ids.len();
        let mut i: usize = 0;
        while i < n
            invariant
                n == ids@.len(),
                i <= n,
                levels == self@.levels,
                text_views(ids@) == order,
                is_menu_order(order, levels),
                texts == order.map_values(|k: Seq<char>| menu_text(k, levels[k])),
                text_views(items@) =~= texts.take(i as int),
            decreases n - i,
        {
            let id = &ids[i];
            assert(order[i as int] == id@);
            assert(order.contains(id@));
            let item = self.row_text(id);
            assert(item@ == texts[i as int]);
            let ghost before = items@;
            items.push(item);
            assert(text_views(items@) =~= text_views(before).push(item@));
            assert(texts.take(i + 1) =~= texts.take(i as int).push(item@));
            i = i + 1;
        }
        assert(text_views(items@) =~= texts);
        proof {
            assert forall|i: int, j: int| 0 <= i < j < items@.len() implies text_le(
                (#[trigger] items@[i])@,
                (#[trigger] items@[j])@,
            ) by {
                assert(items@[i]@ == texts[i] && items@[j]@ == texts[j]);
                assert(row_order(levels)(order[i], order[j]));
                assert(row_le(levels, order[i], order[j]));
            }
        }
        items
    }

    /// Plays the level on row `row` of the level menu: makes it current and tells the shell
    /// about it. Nothing changes when there is no such row.
    pub fn play_selected(&mut self, row: usize) -> (r: Option<String>)
        ensures
            row < menu_order(old(self)@.levels).len() ==> {
                &&& final(self)@ == with_current(old(self)@, menu_order(old(self)@.levels)[row as int])
                &&& r matches Some(m) && m@ == selected_level_message(
                    menu_order(old(self)@.levels)[row as int],
                    old(self)@.levels[menu_order(old(self)@.levels)[row as int]].level_type,
                )
            },
            row >= menu_order(old(self)@.levels).len() ==> final(self)@ == old(self)@ && r is None,
    {
        let ids = self.menu_level_ids();
        if row >= ids.len() {
            return None;
        }
        let id = ids[row].clone();
        proof {
            assert(text_views(ids@)[row as int] == id@);
            assert(menu_order(self@.levels).contains(id@));
        }
        match self.play(Some(id)) {
            Ok(message) => Some(message),
            Err(_) => None,
        }
    }
}

} // verus!
