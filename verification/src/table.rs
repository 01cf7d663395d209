//! The employee table of the data page: filtering, stable sorting by a
//! column, and the edits made to the loaded rows.

use vstd::prelude::*;
use crate::api::Employee;
use crate::text::{
    has_infix, lemma_text_le_total, lemma_text_le_transitive, lowercase, str_le, text_contains,
    text_le, to_lowercase,
};

verus! {

broadcast use vstd::string::group_string_axioms;

/// The column by which the table is sorted.
#[derive(Debug, Clone, Copy, PartialEq, Eq, Structural)]
pub enum SortCol {
    Id,
    Name,
    Department,
    Salary,
}

/// Row `a` comes no later than row `b` when sorting by `col`.
pub open spec fn key_le(col: SortCol, a: Employee, b: Employee) -> bool {
    match col {
        SortCol::Id => a.id <= b.id,
        SortCol::Name => text_le(a.name@, b.name@),
        SortCol::Department => text_le(a.department@, b.department@),
        SortCol::Salary => a.salary <= b.salary,
    }
}

/// Rows `a` and `b` have equal sort keys in column `col`.
pub open spec fn same_key(col: SortCol, a: Employee, b: Employee) -> bool {
    key_le(col, a, b) && key_le(col, b, a)
}

/// Whether a row has the same key as `e` in column `col`.
pub open spec fn same_key_as(col: SortCol, e: Employee) -> spec_fn(Employee) -> bool {
    |x: Employee| same_key(col, x, e)
}

/// The rows of `s` whose key in column `col` equals that of `e`, in order.
pub open spec fn key_class(col: SortCol, s: Seq<Employee>, e: Employee) -> Seq<Employee> {
    s.filter(same_key_as(col, e))
}

/// `s` is in ascending order of column `col`.
pub open spec fn sorted_by(col: SortCol, s: Seq<Employee>) -> bool {
    forall|i: int, j: int| 0 <= i < j < s.len() ==> key_le(col, #[trigger] s[i], #[trigger] s[j])
}

/// `out` is the stable sort of `inp` by column `col`: ascending, and rows with
/// equal keys in the order they had in `inp`.
pub open spec fn stable_sort_of(col: SortCol, out: Seq<Employee>, inp: Seq<Employee>) -> bool {
    &&& sorted_by(col, out)
    &&& forall|e: Employee| #[trigger] key_class(col, out, e) == key_class(col, inp, e)
    &&& out.to_multiset() == inp.to_multiset()
}

/// The order of rows by a column is total.
pub proof fn lemma_key_le_total(col: SortCol, a: Employee, b: Employee)
    ensures
        key_le(col, a, b) || key_le(col, b, a),
{
    match col {
        SortCol::Name => lemma_text_le_total(a.name@, b.name@),
        SortCol::Department => lemma_text_le_total(a.department@, b.department@),
        _ => {},
    }
}

/// The order of rows by a column is transitive.
pub proof fn lemma_key_le_transitive(col: SortCol, a: Employee, b: Employee, c: Employee)
    requires
        key_le(col, a, b),
        key_le(col, b, c),
    ensures
        key_le(col, a, c),
{
    match col {
        SortCol::Name => lemma_text_le_transitive(a.name@, b.name@, c.name@),
        SortCol::Department => lemma_text_le_transitive(a.department@, b.department@, c.department@),
        _ => {},
    }
}

/// Whether row `a` comes no later than row `b` when sorting by `col`.
pub fn row_key_le(col: SortCol, a: &Employee, b: &Employee) -> (r: bool)
    ensures
        r == key_le(col, *a, *b),
{
    match col {
        SortCol::Id => a.id <= b.id,
        SortCol::Name => str_le(a.name.as_str(), b.name.as_str()),
        SortCol::Department => str_le(a.department.as_str(), b.department.as_str()),
        SortCol::Salary => a.salary <= b.salary,
    }
}


/// Filtering a one-element sequence keeps its element exactly when the
/// predicate holds of it.
proof fn lemma_filter_single(x: Employee, p: spec_fn(Employee) -> bool)
    ensures
        seq![x].filter(p) == (if p(x) { seq![x] } else { Seq::<Employee>::empty() }),
{
    reveal_with_fuel(Seq::<_>::filter, 2);
    assert(seq![x].drop_last() =~= Seq::<Employee>::empty());
}

/// A filter keeps nothing from a sequence none of whose elements passes.
proof fn lemma_filter_none(s: Seq<Employee>, p: spec_fn(Employee) -> bool)
    requires
        forall|k: int| 0 <= k < s.len() ==> !p(#[trigger] s[k]),
    ensures
        s.filter(p) == Seq::<Employee>::empty(),
{
    broadcast use vstd::seq_lib::group_filter_ensures;
    if s.filter(p).len() > 0 {
        let y = s.filter(p)[0];
        assert(s.filter(p).contains(y));
        s.lemma_filter_contains_rev(p, y);
        let k = choose|k: int| 0 <= k < s.len() && s[k] == y;
        assert(p(s[k]));
    }
    assert(s.filter(p) =~= Seq::<Employee>::empty());
}

/// Inserting `x` after the rows whose key is at most its own, and before
/// those whose key is greater, keeps the rows sorted and adds `x` at the end
/// of its key class.
proof fn lemma_insert_sorted(col: SortCol, out: Seq<Employee>, p: int, x: Employee, inp: Seq<Employee>)
    requires
        0 <= p <= out.len(),
        sorted_by(col, out),
        forall|k: int| 0 <= k < p ==> key_le(col, #[trigger] out[k], x),
        forall|k: int| p <= k < out.len() ==> !key_le(col, #[trigger] out[k], x),
        forall|e: Employee| #[trigger] key_class(col, out, e) == key_class(col, inp, e),
        out.to_multiset() == inp.to_multiset(),
    ensures
        sorted_by(col, out.insert(p, x)),
        forall|e: Employee| #[trigger] key_class(col, out.insert(p, x), e) == key_class(col, inp.push(x), e),
        out.insert(p, x).to_multiset() == inp.push(x).to_multiset(),
{
    broadcast use vstd::seq_lib::group_to_multiset_ensures;
    let new = out.insert(p, x);
    let a = out.take(p);
    let b = out.skip(p);
    assert(new =~= a + seq![x] + b);
    assert(out =~= a + b);
    assert(inp.push(x) =~= inp + seq![x]);
    assert forall|i: int, j: int| 0 <= i < j < new.len() implies key_le(col, #[trigger] new[i], #[trigger] new[j]) by {
        if i < p && j > p {
            assert(key_le(col, out[i], out[j - 1]));
        } else if i == p && j > p {
            lemma_key_le_total(col, out[j - 1], x);
        } else if i > p {
            assert(key_le(col, out[i - 1], out[j - 1]));
        }
    }
    assert forall|e: Employee| #[trigger] key_class(col, new, e) == key_class(col, inp.push(x), e) by {
        let pr = same_key_as(col, e);
        vstd::seq::Seq::filter_distributes_over_add(a + seq![x], b, pr);
        vstd::seq::Seq::filter_distributes_over_add(a, seq![x], pr);
        vstd::seq::Seq::filter_distributes_over_add(a, b, pr);
        vstd::seq::Seq::filter_distributes_over_add(inp, seq![x], pr);
        lemma_filter_single(x, pr);
        if same_key(col, x, e) {
            assert forall|k: int| 0 <= k < b.len() implies !pr(#[trigger] b[k]) by {
                if same_key(col, b[k], e) {
                    lemma_key_le_transitive(col, b[k], e, x);
                    assert(!key_le(col, out[p + k], x));
                }
            }
            lemma_filter_none(b, pr);
            assert(key_class(col, new, e) == (a + seq![x]).filter(pr) + b.filter(pr));
            assert((a + seq![x]).filter(pr) == a.filter(pr) + seq![x].filter(pr));
            assert(seq![x].filter(pr) == seq![x]);
            assert(key_class(col, out, e) == a.filter(pr) + b.filter(pr));
            assert(key_class(col, inp.push(x), e) == inp.filter(pr) + seq![x].filter(pr));
            assert(key_class(col, new, e) =~= key_class(col, inp.push(x), e));
        } else {
            assert(key_class(col, new, e) == (a + seq![x]).filter(pr) + b.filter(pr));
            assert((a + seq![x]).filter(pr) == a.filter(pr) + seq![x].filter(pr));
            assert(seq![x].filter(pr) == Seq::<Employee>::empty());
            assert(key_class(col, out, e) == a.filter(pr) + b.filter(pr));
            assert(key_class(col, inp.push(x), e) == inp.filter(pr) + seq![x].filter(pr));
            assert(key_class(col, new, e) =~= key_class(col, inp.push(x), e));
        }
    }
    assert(new.remove(p) =~= out);
    assert(new[p] == x);
    assert(new.to_multiset().count(x) > 0) by {
        assert(new.contains(x));
    }
    assert(new.to_multiset() =~= out.to_multiset().insert(x));
}

/// The rows of `rows`, stably sorted by column `col`.
pub fn sort_rows(rows: &Vec<Employee>, col: SortCol) -> (out: Vec<Employee>)
    ensures
        stable_sort_of(col, out@, rows@),
{
    let mut out: Vec<Employee> = Vec::new();
    let mut i: usize = 0;
    assert(rows@.take(0) =~= out@);
    while i < rows.len()
        invariant
            i <= rows.len(),
            sorted_by(col, out@),
            forall|e: Employee| #[trigger] key_class(col, out@, e) == key_class(col, rows@.take(i as int), e),
            out@.to_multiset() == rows@.take(i as int).to_multiset(),
        decreases rows.len() - i,
    {
        let x = rows[i].clone();
        let mut p: usize = out.len();
        while p > 0 && !row_key_le(col, &out[p - 1], &x)
            invariant
                p <= out.len(),
                forall|k: int| p <= k < out.len() ==> !key_le(col, #[trigger] out@[k], x),
            decreases p,
        {
            p = p - 1;
        }
        proof {
            assert forall|k: int| 0 <= k < p implies key_le(col, #[trigger] out@[k], x) by {
                if k < p - 1 {
                    lemma_key_le_transitive(col, out@[k], out@[p - 1], x);
                }
            }
            lemma_insert_sorted(col, out@, p as int, x, rows@.take(i as int));
            assert(rows@.take(i + 1) =~= rows@.take(i as int).push(x));
        }
        out.insert(p, x);
        i = i + 1;
    }
    assert(rows@.take(rows.len() as int) =~= rows@);
    out
}


/// Whether a row matches the lower-cased search text `q`: `q` is empty or
/// occurs in the lower-cased name, department or role.
pub open spec fn row_matches(e: Employee, q: Seq<char>) -> bool {
    ||| q.len() == 0
    ||| has_infix(lowercase(e.name@), q)
    ||| has_infix(lowercase(e.department@), q)
    ||| has_infix(lowercase(e.role@), q)
}

/// The rows matching `q`.
pub open spec fn matching(q: Seq<char>) -> spec_fn(Employee) -> bool {
    |e: Employee| row_matches(e, q)
}

/// The rows of `rows` that match the search text `filter`, in order: `filter`
/// is lower-cased first.
pub open spec fn filtered_rows(rows: Seq<Employee>, filter: Seq<char>) -> Seq<Employee> {
    rows.filter(matching(lowercase(filter)))
}

/// `out` is `inp` sorted by column `col`: the stable ascending sort when
/// `asc`, else that sort reversed.
pub open spec fn ordered_as(col: SortCol, asc: bool, out: Seq<Employee>, inp: Seq<Employee>) -> bool {
    if asc {
        stable_sort_of(col, out, inp)
    } else {
        stable_sort_of(col, out.reverse(), inp)
    }
}

/// The match test on texts already lower-cased: `query` is empty or occurs in
/// one of the three fields.
pub fn fields_match(name: &str, department: &str, role: &str, query: &str) -> (r: bool)
    ensures
        r == (query@.len() == 0 || has_infix(name@, query@) || has_infix(department@, query@)
            || has_infix(role@, query@)),
{
    let q = crate::text::chars_of(query);
    q.len() == 0 || text_contains(name, query) || text_contains(department, query)
        || text_contains(role, query)
}

/// Whether `e` matches the lower-cased search text `query`.
pub fn row_matches_query(e: &Employee, query: &str) -> (r: bool)
    ensures
        r == row_matches(*e, query@),
{
    let name = to_lowercase(e.name.as_str());
    let department = to_lowercase(e.department.as_str());
    let role = to_lowercase(e.role.as_str());
    fields_match(name.as_str(), department.as_str(), role.as_str(), query)
}

/// The rows that match the search text `filter`, in their order.
pub fn filter_rows(rows: &Vec<Employee>, filter: &str) -> (r: Vec<Employee>)
    ensures
        r@ == filtered_rows(rows@, filter@),
        filter@.len() == 0 ==> r@ == rows@,
{
    let query = to_lowercase(filter);
    proof {
        if filter@.len() == 0 {
            lemma_empty_query_keeps_all(rows@, query@);
        }
    }
    let ghost pred = matching(lowercase(filter@));
    let mut out: Vec<Employee> = Vec::new();
    let mut i: usize = 0;
    assert(rows@.take(0).filter(pred) =~= out@) by {
        reveal_with_fuel(Seq::<_>::filter, 1);
    }
    while i < rows.len()
        invariant
            i <= rows.len(),
            query@ == lowercase(filter@),
            pred == matching(lowercase(filter@)),
            out@ == rows@.take(i as int).filter(pred),
        decreases rows.len() - i,
    {
        let e = &rows[i];
        let keep = row_matches_query(e, query.as_str());
        proof {
            reveal_with_fuel(Seq::<_>::filter, 1);
            assert(rows@.take(i + 1).drop_last() =~= rows@.take(i as int));
        }
        if keep {
            out.push(e.clone());
        }
        i = i + 1;
    }
    assert(rows@.take(rows.len() as int) =~= rows@);
    out
}

/// `v` in reverse order.
pub fn reverse_rows(v: Vec<Employee>) -> (r: Vec<Employee>)
    ensures
        r@ == v@.reverse(),
{
    let n = v.len();
    let mut r: Vec<Employee> = Vec::new();
    let mut i: usize = n;
    while i > 0
        invariant
            i <= n,
            n == v.len(),
            r.len() == n - i,
            forall|k: int| 0 <= k < r.len() ==> #[trigger] r@[k] == v@[n - 1 - k],
        decreases i,
    {
        i = i - 1;
        r.push(v[i].clone());
    }
    assert(r@ =~= v@.reverse());
    r
}

/// The rows shown by the table: those matching the search text `filter`,
/// stably sorted by `col`, and reversed when the order is descending.
pub fn visible_rows(rows: &Vec<Employee>, filter: &str, col: SortCol, asc: bool) -> (r: Vec<Employee>)
    ensures
        ordered_as(col, asc, r@, filtered_rows(rows@, filter@)),
        filter@.len() == 0 ==> r@.to_multiset() == rows@.to_multiset(),
{
    let kept = filter_rows(rows, filter);
    let sorted = sort_rows(&kept, col);
    if asc {
        sorted
    } else {
        let r = reverse_rows(sorted);
        proof {
            lemma_reverse_reverse(sorted@);
            sorted@.lemma_reverse_to_multiset();
        }
        r
    }
}

/// Reversing twice gives the sequence back.
proof fn lemma_reverse_reverse(s: Seq<Employee>)
    ensures
        s.reverse().reverse() == s,
{
    assert(s.reverse().reverse() =~= s);
}


/// The sort after a click on the header of `clicked`: the same column flips
/// the direction, another column becomes the sort column, ascending.
pub open spec fn sort_after_click(col: SortCol, asc: bool, clicked: SortCol) -> (SortCol, bool) {
    if col == clicked {
        (col, !asc)
    } else {
        (clicked, true)
    }
}

/// The new sort column and direction after a click on the header of `clicked`.
pub fn next_sort(col: SortCol, asc: bool, clicked: SortCol) -> (r: (SortCol, bool))
    ensures
        r == sort_after_click(col, asc, clicked),
        col == clicked ==> r.0 == col && r.1 == !asc,
        col != clicked ==> r.0 == clicked && r.1,
{
    if col == clicked {
        (col, !asc)
    } else {
        (clicked, true)
    }
}

/// The direction mark shown after the title of column `shown`.
pub open spec fn arrow_text(col: SortCol, asc: bool, shown: SortCol) -> Seq<char> {
    if col == shown {
        if asc {
            " ▲"@
        } else {
            " ▼"@
        }
    } else {
        ""@
    }
}

/// The direction mark of column `shown`: an up or down triangle on the sort
/// column, nothing on the others.
pub fn sort_arrow(col: SortCol, asc: bool, shown: SortCol) -> (r: &'static str)
    ensures
        r@ == arrow_text(col, asc, shown),
        col == shown && asc ==> r@ == " ▲"@,
        col == shown && !asc ==> r@ == " ▼"@,
        col != shown ==> r@ == ""@,
{
    if col == shown {
        if asc {
            " ▲"
        } else {
            " ▼"
        }
    } else {
        ""
    }
}

/// The title of a sortable column.
pub open spec fn column_title(c: SortCol) -> Seq<char> {
    match c {
        SortCol::Id => "ID"@,
        SortCol::Name => "Name"@,
        SortCol::Department => "Department"@,
        SortCol::Salary => "Salary"@,
    }
}

/// The header text of column `shown`: its title and its direction mark.
pub fn header_label(col: SortCol, asc: bool, shown: SortCol) -> (r: String)
    ensures
        r@ == column_title(shown) + arrow_text(col, asc, shown),
        shown == SortCol::Id ==> r@ == "ID"@ + arrow_text(col, asc, shown),
        shown == SortCol::Name ==> r@ == "Name"@ + arrow_text(col, asc, shown),
        shown == SortCol::Department ==> r@ == "Department"@ + arrow_text(col, asc, shown),
        shown == SortCol::Salary ==> r@ == "Salary"@ + arrow_text(col, asc, shown),
{
    let title = match shown {
        SortCol::Id => "ID",
        SortCol::Name => "Name",
        SortCol::Department => "Department",
        SortCol::Salary => "Salary",
    };
    let mut out = String::from_str(title);
    out.append(sort_arrow(col, asc, shown));
    out
}

/// `k` is the first position of a row with id `id`.
pub open spec fn first_with_id(rows: Seq<Employee>, id: i32, k: int) -> bool {
    &&& 0 <= k < rows.len()
    &&& rows[k].id == id
    &&& forall|j: int| 0 <= j < k ==> (#[trigger] rows[j]).id != id
}

/// Writes an edited employee back into the loaded rows: the first row with
/// its id is replaced, and nothing changes when no row has that id.
pub fn apply_update(rows: &mut Vec<Employee>, updated: Employee)
    ensures
        forall|k: int| first_with_id(old(rows)@, updated.id, k) ==> final(rows)@ == old(rows)@.update(k, updated),
        (forall|k: int| 0 <= k < old(rows)@.len() ==> (#[trigger] old(rows)@[k]).id != updated.id)
            ==> final(rows)@ == old(rows)@,
        final(rows)@.len() == old(rows)@.len(),
        forall|k: int|
            0 <= k < old(rows)@.len() && (#[trigger] old(rows)@[k]).id == updated.id
                && (forall|j: int| 0 <= j < k ==> old(rows)@[j].id != updated.id)
                ==> final(rows)@[k] == updated
                    && (forall|j: int| 0 <= j < old(rows)@.len() && j != k ==> final(rows)@[j] == old(rows)@[j]),
{
    let mut i: usize = 0;
    while i < rows.len()
        invariant
            i <= rows.len(),
            rows@ == old(rows)@,
            forall|j: int| 0 <= j < i ==> (#[trigger] rows@[j]).id != updated.id,
        decreases rows.len() - i,
    {
        if rows[i].id == updated.id {
            proof {
                assert forall|k: int| first_with_id(old(rows)@, updated.id, k) implies k == i by {
                    if k < i {
                    } else if k > i {
                        assert(old(rows)@[i as int].id == updated.id);
                    }
                }
            }
            rows.set(i, updated);
            return;
        }
        i = i + 1;
    }
}

/// Whether a row's id differs from `id`.
pub open spec fn id_differs(id: i32) -> spec_fn(Employee) -> bool {
    |e: Employee| e.id != id
}

/// Removes every row with id `id`, keeping the order of the others.
pub fn remove_id(rows: &mut Vec<Employee>, id: i32)
    ensures
        final(rows)@ == old(rows)@.filter(id_differs(id)),
{
    let ghost pred = id_differs(id);
    let mut out: Vec<Employee> = Vec::new();
    let mut i: usize = 0;
    assert(rows@.take(0).filter(pred) =~= out@) by {
        reveal_with_fuel(Seq::<_>::filter, 1);
    }
    while i < rows.len()
        invariant
            i <= rows.len(),
            rows@ == old(rows)@,
            pred == id_differs(id),
            out@ == rows@.take(i as int).filter(pred),
        decreases rows.len() - i,
    {
        proof {
            reveal_with_fuel(Seq::<_>::filter, 1);
            assert(rows@.take(i + 1).drop_last() =~= rows@.take(i as int));
        }
        if rows[i].id != id {
            out.push(rows[i].clone());
        }
        i = i + 1;
    }
    assert(rows@.take(rows.len() as int) =~= rows@);
    *rows = out;
}


/// The last row of a sequence belongs to its own key class, last; dropping
/// it shortens that class by one and leaves the other classes alone.
proof fn lemma_key_class_drop_last(col: SortCol, s: Seq<Employee>, e: Employee)
    requires
        s.len() > 0,
    ensures
        same_key(col, s.last(), e) ==> key_class(col, s, e) == key_class(col, s.drop_last(), e).push(s.last()),
        !same_key(col, s.last(), e) ==> key_class(col, s, e) == key_class(col, s.drop_last(), e),
{
    reveal_with_fuel(Seq::<_>::filter, 1);
}

/// A row is in its own key class.
proof fn lemma_same_key_refl(col: SortCol, a: Employee)
    ensures
        same_key(col, a, a),
{
    lemma_key_le_total(col, a, a);
}

/// Two stable sorts of the same rows by the same column are equal: the order
/// in which the table shows its rows is fully determined by the rows, the
/// sort column and the direction.
pub proof fn lemma_stable_sort_unique(col: SortCol, out1: Seq<Employee>, out2: Seq<Employee>, inp: Seq<Employee>)
    requires
        stable_sort_of(col, out1, inp),
        stable_sort_of(col, out2, inp),
    ensures
        out1 == out2,
    decreases out1.len(),
{
    broadcast use vstd::seq_lib::group_to_multiset_ensures;
    assert(out1.len() == out1.to_multiset().len());
    assert(out2.len() == out2.to_multiset().len());
    if out1.len() == 0 {
        assert(out1 =~= out2);
        return;
    }
    let n = out1.len();
    let m1 = out1.last();
    let m2 = out2.last();
    // m2 occurs in out1, so its key is at most that of m1, and the other way round.
    assert(out2[n - 1] == m2);
    assert(out2.contains(m2));
    assert(out1.to_multiset().count(m2) > 0);
    assert(out1.contains(m2));
    let k1 = choose|k: int| 0 <= k < n && out1[k] == m2;
    assert(out1.to_multiset().count(m1) > 0) by {
        assert(out1[n - 1] == m1);
        assert(out1.contains(m1));
    }
    assert(out2.contains(m1));
    let k2 = choose|k: int| 0 <= k < n && out2[k] == m1;
    lemma_same_key_refl(col, m1);
    lemma_same_key_refl(col, m2);
    if k1 < n - 1 {
        assert(key_le(col, out1[k1], out1[n - 1]));
    }
    if k2 < n - 1 {
        assert(key_le(col, out2[k2], out2[n - 1]));
    }
    assert(same_key(col, m1, m2));
    // Both are the last row of the same key class.
    lemma_key_class_drop_last(col, out1, m1);
    lemma_key_class_drop_last(col, out2, m1);
    assert(key_class(col, out1, m1) == key_class(col, inp, m1));
    assert(key_class(col, out2, m1) == key_class(col, inp, m1));
    assert(same_key(col, m2, m1)) by {
        lemma_key_le_total(col, m1, m2);
    }
    assert(m1 == key_class(col, out1, m1).last());
    assert(m2 == key_class(col, out2, m1).last());
    assert(m1 == m2);
    // What remains are two stable sorts of the same rows.
    let d1 = out1.drop_last();
    let d2 = out2.drop_last();
    assert(out1 =~= d1.push(m1));
    assert(out2 =~= d2.push(m1));
    assert(d1.to_multiset() =~= out1.to_multiset().remove(m1)) by {
        assert(d1.push(m1).to_multiset() =~= d1.to_multiset().insert(m1));
    }
    assert(d2.to_multiset() =~= out2.to_multiset().remove(m1)) by {
        assert(d2.push(m1).to_multiset() =~= d2.to_multiset().insert(m1));
    }
    assert forall|e: Employee| #[trigger] key_class(col, d2, e) == key_class(col, d1, e) by {
        lemma_key_class_drop_last(col, out1, e);
        lemma_key_class_drop_last(col, out2, e);
        assert(key_class(col, out1, e) == key_class(col, inp, e));
        assert(key_class(col, out2, e) == key_class(col, inp, e));
        if same_key(col, m1, e) {
            assert(key_class(col, d1, e) =~= key_class(col, out1, e).drop_last());
            assert(key_class(col, d2, e) =~= key_class(col, out2, e).drop_last());
        }
    }
    assert forall|i: int, j: int| 0 <= i < j < d1.len() implies key_le(col, #[trigger] d1[i], #[trigger] d1[j]) by {
        assert(out1[i] == d1[i] && out1[j] == d1[j]);
    }
    assert forall|i: int, j: int| 0 <= i < j < d2.len() implies key_le(col, #[trigger] d2[i], #[trigger] d2[j]) by {
        assert(out2[i] == d2[i] && out2[j] == d2[j]);
    }
    assert(stable_sort_of(col, d1, d1));
    assert(stable_sort_of(col, d2, d1));
    lemma_stable_sort_unique(col, d1, d2, d1);
}


/// Clicking the header of the sort column twice restores the direction, and
/// clicking any other column sorts by it in ascending order.
pub proof fn lemma_click_laws(col: SortCol, asc: bool, other: SortCol)
    ensures
        ({
            let (c1, a1) = sort_after_click(col, asc, col);
            sort_after_click(c1, a1, col) == (col, asc)
        }),
        other != col ==> sort_after_click(col, asc, other) == (other, true),
{
}

/// An empty lower-cased search text keeps every row, in order.
pub proof fn lemma_empty_query_keeps_all(rows: Seq<Employee>, q: Seq<char>)
    requires
        q.len() == 0,
    ensures
        rows.filter(matching(q)) == rows,
{
    crate::text::lemma_filter_all(rows, matching(q));
}

/// A row that matches a search text also matches every text that occurs in it.
pub proof fn lemma_match_weaker_query(e: Employee, q1: Seq<char>, q2: Seq<char>)
    requires
        has_infix(q2, q1),
        row_matches(e, q2),
    ensures
        row_matches(e, q1),
{
    let i = choose|i: int| 0 <= i && i + q1.len() <= q2.len() && #[trigger] q2.subrange(i, i + q1.len()) == q1;
    if q2.len() > 0 {
        if has_infix(lowercase(e.name@), q2) {
            crate::text::lemma_infix_transitive(lowercase(e.name@), q2, q1);
        } else if has_infix(lowercase(e.department@), q2) {
            crate::text::lemma_infix_transitive(lowercase(e.department@), q2, q1);
        } else {
            crate::text::lemma_infix_transitive(lowercase(e.role@), q2, q1);
        }
    }
}

/// Narrowing the search keeps fewer rows: when the lower-cased text `q1`
/// occurs in the lower-cased text `q2`, every row kept for `q2` is kept for
/// `q1`, and `q2` keeps at most as many rows.
pub proof fn lemma_narrower_query(rows: Seq<Employee>, q1: Seq<char>, q2: Seq<char>)
    requires
        has_infix(q2, q1),
    ensures
        rows.filter(matching(q2)).len() <= rows.filter(matching(q1)).len(),
        forall|k: int| 0 <= k < rows.filter(matching(q2)).len()
            ==> rows.filter(matching(q1)).contains(#[trigger] rows.filter(matching(q2))[k]),
    decreases rows.len(),
{
    broadcast use vstd::seq_lib::group_filter_ensures;
    reveal_with_fuel(Seq::<_>::filter, 1);
    if rows.len() > 0 {
        lemma_narrower_query(rows.drop_last(), q1, q2);
        if row_matches(rows.last(), q2) {
            lemma_match_weaker_query(rows.last(), q1, q2);
        }
    }
    let f2 = rows.filter(matching(q2));
    assert forall|k: int| 0 <= k < f2.len() implies rows.filter(matching(q1)).contains(#[trigger] f2[k]) by {
        assert(f2.contains(f2[k]));
        rows.lemma_filter_contains_rev(matching(q2), f2[k]);
        let j = choose|j: int| 0 <= j < rows.len() && rows[j] == f2[k];
        rows.lemma_filter_pred(matching(q2), k);
        lemma_match_weaker_query(rows[j], q1, q2);
        rows.lemma_filter_contains(matching(q1), j);
    }
}

/// The same law for the search texts as typed: when the lower-cased `f1`
/// occurs in the lower-cased `f2`, the rows kept for `f2` are among those
/// kept for `f1`, and there are at most as many.
pub proof fn lemma_narrower_search(rows: Seq<Employee>, f1: Seq<char>, f2: Seq<char>)
    requires
        has_infix(lowercase(f2), lowercase(f1)),
    ensures
        filtered_rows(rows, f2).len() <= filtered_rows(rows, f1).len(),
        forall|k: int| 0 <= k < filtered_rows(rows, f2).len()
            ==> filtered_rows(rows, f1).contains(#[trigger] filtered_rows(rows, f2)[k]),
{
    lemma_narrower_query(rows, lowercase(f1), lowercase(f2));
}

/// After a removal no row has the removed id, and every row with another id
/// is still there.
pub proof fn lemma_removed_id_gone(rows: Seq<Employee>, id: i32)
    ensures
        forall|k: int| 0 <= k < rows.filter(id_differs(id)).len()
            ==> (#[trigger] rows.filter(id_differs(id))[k]).id != id,
        forall|k: int| 0 <= k < rows.len() && (#[trigger] rows[k]).id != id
            ==> rows.filter(id_differs(id)).contains(rows[k]),
{
    broadcast use vstd::seq_lib::group_filter_ensures;
    assert forall|k: int| 0 <= k < rows.filter(id_differs(id)).len()
        implies (#[trigger] rows.filter(id_differs(id))[k]).id != id by {
        rows.lemma_filter_pred(id_differs(id), k);
    }
    assert forall|k: int| 0 <= k < rows.len() && (#[trigger] rows[k]).id != id
        implies rows.filter(id_differs(id)).contains(rows[k]) by {
        rows.lemma_filter_contains(id_differs(id), k);
    }
}


/// Sorting by ID or by salary compares the numbers; sorting by name or by
/// department compares the texts in lexicographic order.
pub proof fn lemma_key_le_meaning(a: Employee, b: Employee)
    ensures
        key_le(SortCol::Id, a, b) == (a.id <= b.id),
        key_le(SortCol::Salary, a, b) == (a.salary <= b.salary),
        key_le(SortCol::Name, a, b) == text_le(a.name@, b.name@),
        key_le(SortCol::Department, a, b) == text_le(a.department@, b.department@),
{
}

/// What the order of the table means for each column: in the ascending order
/// ids and salaries never decrease along the rows and names and departments
/// are in lexicographic order; in the descending order ids and salaries never
/// increase and the texts are in reverse lexicographic order. The table shows
/// the matching rows, each as often as it occurs among them.
pub proof fn lemma_visible_order(col: SortCol, asc: bool, out: Seq<Employee>, inp: Seq<Employee>)
    requires
        ordered_as(col, asc, out, inp),
    ensures
        out.len() == inp.len(),
        out.to_multiset() == inp.to_multiset(),
        forall|i: int, j: int| 0 <= i < j < out.len() ==> {
            let a = #[trigger] out[i];
            let b = #[trigger] out[j];
            &&& (asc && col == SortCol::Id) ==> a.id <= b.id
            &&& (asc && col == SortCol::Salary) ==> a.salary <= b.salary
            &&& (asc && col == SortCol::Name) ==> text_le(a.name@, b.name@)
            &&& (asc && col == SortCol::Department) ==> text_le(a.department@, b.department@)
            &&& (!asc && col == SortCol::Id) ==> a.id >= b.id
            &&& (!asc && col == SortCol::Salary) ==> a.salary >= b.salary
            &&& (!asc && col == SortCol::Name) ==> text_le(b.name@, a.name@)
            &&& (!asc && col == SortCol::Department) ==> text_le(b.department@, a.department@)
        },
{
    broadcast use vstd::seq_lib::group_to_multiset_ensures;
    if asc {
        assert(out.len() == out.to_multiset().len());
        assert(inp.len() == inp.to_multiset().len());
        assert forall|i: int, j: int| 0 <= i < j < out.len() implies ({
            let a = #[trigger] out[i];
            let b = #[trigger] out[j];
            &&& (asc && col == SortCol::Id) ==> a.id <= b.id
            &&& (asc && col == SortCol::Salary) ==> a.salary <= b.salary
            &&& (asc && col == SortCol::Name) ==> text_le(a.name@, b.name@)
            &&& (asc && col == SortCol::Department) ==> text_le(a.department@, b.department@)
            &&& (!asc && col == SortCol::Id) ==> a.id >= b.id
            &&& (!asc && col == SortCol::Salary) ==> a.salary >= b.salary
            &&& (!asc && col == SortCol::Name) ==> text_le(b.name@, a.name@)
            &&& (!asc && col == SortCol::Department) ==> text_le(b.department@, a.department@)
        }) by {
            assert(key_le(col, out[i], out[j]));
        }
    } else {
        let r = out.reverse();
        out.lemma_reverse_to_multiset();
        assert(r.len() == r.to_multiset().len());
        assert(inp.len() == inp.to_multiset().len());
        assert forall|i: int, j: int| 0 <= i < j < out.len() implies ({
            let a = #[trigger] out[i];
            let b = #[trigger] out[j];
            &&& (asc && col == SortCol::Id) ==> a.id <= b.id
            &&& (asc && col == SortCol::Salary) ==> a.salary <= b.salary
            &&& (asc && col == SortCol::Name) ==> text_le(a.name@, b.name@)
            &&& (asc && col == SortCol::Department) ==> text_le(a.department@, b.department@)
            &&& (!asc && col == SortCol::Id) ==> a.id >= b.id
            &&& (!asc && col == SortCol::Salary) ==> a.salary >= b.salary
            &&& (!asc && col == SortCol::Name) ==> text_le(b.name@, a.name@)
            &&& (!asc && col == SortCol::Department) ==> text_le(b.department@, a.department@)
        }) by {
            let n = out.len();
            assert(r[n - 1 - j] == out[j]);
            assert(r[n - 1 - i] == out[i]);
            assert(key_le(col, r[n - 1 - j], r[n - 1 - i]));
        }
    }
}

/// A row is kept by a search exactly when the search text is empty or occurs
/// in its name, department or role, for search texts of every length.
pub proof fn lemma_row_matches_meaning(e: Employee, q: Seq<char>)
    ensures
        has_infix(lowercase(e.name@), q) ==> row_matches(e, q),
        has_infix(lowercase(e.department@), q) ==> row_matches(e, q),
        has_infix(lowercase(e.role@), q) ==> row_matches(e, q),
        q.len() == 0 ==> row_matches(e, q),
        row_matches(e, q) ==> q.len() == 0 || has_infix(lowercase(e.name@), q)
            || has_infix(lowercase(e.department@), q) || has_infix(lowercase(e.role@), q),
{
}

/// The search keeps a row exactly when the lower-cased search text occurs,
/// character for character at some position, in the row's lower-cased name,
/// department or role (or is empty); kept rows stay in their order.
pub proof fn lemma_filter_keeps_occurrences(rows: Seq<Employee>, filter: Seq<char>, k: int, field: Seq<char>, at: int)
    requires
        0 <= k < rows.len(),
        field == lowercase(rows[k].name@) || field == lowercase(rows[k].department@)
            || field == lowercase(rows[k].role@),
        0 <= at,
        at + lowercase(filter).len() <= field.len(),
        forall|j: int| 0 <= j < lowercase(filter).len() ==> field[at + j] == #[trigger] lowercase(filter)[j],
    ensures
        filtered_rows(rows, filter).contains(rows[k]),
{
    broadcast use vstd::seq_lib::group_filter_ensures;
    let q = lowercase(filter);
    assert(field.subrange(at, at + q.len()) =~= q);
    assert(has_infix(field, q));
    assert(row_matches(rows[k], q));
    rows.lemma_filter_contains(matching(q), k);
}

/// The rows kept by a search all match it: the lower-cased search text is
/// empty or occurs in the row's lower-cased name, department or role.
pub proof fn lemma_filter_only_matching(rows: Seq<Employee>, filter: Seq<char>, k: int)
    requires
        0 <= k < filtered_rows(rows, filter).len(),
    ensures
        ({
            let e = filtered_rows(rows, filter)[k];
            let q = lowercase(filter);
            &&& rows.contains(e)
            &&& (q.len() == 0 || has_infix(lowercase(e.name@), q) || has_infix(lowercase(e.department@), q)
                || has_infix(lowercase(e.role@), q))
        }),
{
    broadcast use vstd::seq_lib::group_filter_ensures;
    let q = lowercase(filter);
    rows.lemma_filter_pred(matching(q), k);
    let e = filtered_rows(rows, filter)[k];
    assert(filtered_rows(rows, filter).contains(e));
    rows.lemma_filter_contains_rev(matching(q), e);
}

/// When some row has the id of an edited employee, a first such row exists
/// and the update replaces exactly that row with the edited employee.
pub proof fn lemma_update_first_row(rows: Seq<Employee>, updated: Employee, k: int)
    requires
        0 <= k < rows.len(),
        rows[k].id == updated.id,
    ensures
        exists|f: int| first_with_id(rows, updated.id, f),
        ({
            let f = choose|f: int| first_with_id(rows, updated.id, f);
            &&& 0 <= f <= k
            &&& rows[f].id == updated.id
            &&& forall|j: int| 0 <= j < f ==> rows[j].id != updated.id
        }),
    decreases k,
{
    if exists|j: int| 0 <= j < k && rows[j].id == updated.id {
        let j = choose|j: int| 0 <= j < k && rows[j].id == updated.id;
        lemma_update_first_row(rows, updated, j);
    } else {
        assert(first_with_id(rows, updated.id, k));
    }
}

/// A click on the header of the sort column flips the direction, whichever
/// column it is; a click on another column sorts by it, ascending.
pub proof fn lemma_click_flips(col: SortCol, asc: bool, clicked: SortCol)
    ensures
        sort_after_click(col, asc, col) == (col, !asc),
        clicked != col ==> sort_after_click(col, asc, clicked) == (clicked, true),
{
}


/// The mark after a column title: an up triangle on the column sorted
/// ascending, a down triangle on the column sorted descending, nothing on the
/// other columns.
pub proof fn lemma_arrow_meaning(col: SortCol, asc: bool, shown: SortCol)
    ensures
        col == shown && asc ==> arrow_text(col, asc, shown) == " ▲"@,
        col == shown && !asc ==> arrow_text(col, asc, shown) == " ▼"@,
        col != shown ==> arrow_text(col, asc, shown) == ""@,
{
}

/// Rows in the same key class of the salary (or id) column are the rows with
/// that same salary (or id).
proof fn lemma_same_key_numbers(e: Employee)
    ensures
        same_key_as(SortCol::Salary, e) == (|x: Employee| x.salary == e.salary),
        same_key_as(SortCol::Id, e) == (|x: Employee| x.id == e.id),
{
    assert(same_key_as(SortCol::Salary, e) =~= (|x: Employee| x.salary == e.salary));
    assert(same_key_as(SortCol::Id, e) =~= (|x: Employee| x.id == e.id));
}

/// Sorting is stable: for every salary (or id) that occurs, the rows with
/// that salary (or id) appear in the sorted rows in the same order as in the
/// rows before sorting.
pub proof fn lemma_stable_meaning(out: Seq<Employee>, inp: Seq<Employee>, k: int)
    requires
        0 <= k < inp.len(),
    ensures
        stable_sort_of(SortCol::Salary, out, inp) ==> out.filter(|x: Employee| x.salary == inp[k].salary)
            == inp.filter(|x: Employee| x.salary == inp[k].salary),
        stable_sort_of(SortCol::Id, out, inp) ==> out.filter(|x: Employee| x.id == inp[k].id)
            == inp.filter(|x: Employee| x.id == inp[k].id),
{
    let e = inp[k];
    lemma_same_key_numbers(e);
    if stable_sort_of(SortCol::Salary, out, inp) {
        assert(key_class(SortCol::Salary, out, e) == key_class(SortCol::Salary, inp, e));
    }
    if stable_sort_of(SortCol::Id, out, inp) {
        assert(key_class(SortCol::Id, out, e) == key_class(SortCol::Id, inp, e));
    }
}


/// The search keeps, in their order, exactly the rows for which the
/// lower-cased search text is empty or occurs in the lower-cased name,
/// department or role; a removal keeps, in their order, the rows whose id
/// differs from the removed one.
pub proof fn lemma_filters_meaning(rows: Seq<Employee>, filter: Seq<char>, id: i32)
    ensures
        filtered_rows(rows, filter) == rows.filter(|e: Employee|
            lowercase(filter).len() == 0
            || has_infix(lowercase(e.name@), lowercase(filter))
            || has_infix(lowercase(e.department@), lowercase(filter))
            || has_infix(lowercase(e.role@), lowercase(filter))),
        rows.filter(id_differs(id)) == rows.filter(|e: Employee| e.id != id),
{
    let q = lowercase(filter);
    assert(matching(q) =~= (|e: Employee|
        q.len() == 0
        || has_infix(lowercase(e.name@), q)
        || has_infix(lowercase(e.department@), q)
        || has_infix(lowercase(e.role@), q)));
    assert(id_differs(id) =~= (|e: Employee| e.id != id));
}

} // verus!
