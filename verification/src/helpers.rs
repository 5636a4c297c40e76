//! Iteration that marks the first and the last item, and the SQL text that
//! reads or deletes the entries of a target filtered by status code, host
//! and id.

use vstd::prelude::*;
use std::collections::VecDeque;
use vstd::seq_lib::lemma_concat_associative;
use crate::text::{CharClass, trim_class, trim_bounds, string_of, chars_of};

verus! {

/// Yields each item together with whether it is the first and whether it is
/// the last one.
pub struct Iter<T> {
    first: bool,
    rest: VecDeque<T>,
}

impl<T> View for Iter<T> {
    /// Whether no item has been asked for yet, and the items still to come.
    type V = (bool, Seq<T>);

    closed spec fn view(&self) -> (bool, Seq<T>) {
        (self.first, self.rest@)
    }
}

/// The items tagged with (is first, is last).
pub open spec fn tag_first_last<T>(items: Seq<T>) -> Seq<(bool, bool, T)> {
    Seq::new(items.len(), |i: int| (i == 0, i == items.len() - 1, items[i]))
}

impl<T> Iter<T> {
    /// What the successive calls of `next` hand out, from this state on.
    pub open spec fn spec_run(self) -> Seq<(bool, bool, T)> {
        let (first, rest) = self@;
        Seq::new(rest.len(), |i: int| (first && i == 0, i == rest.len() - 1, rest[i]))
    }

    pub fn next(&mut self) -> (r: Option<(bool, bool, T)>)
        ensures
            old(self)@.1.len() == 0 ==> r is None && final(self)@ == (false, old(self)@.1),
            old(self)@.1.len() > 0 ==> r == Some(
                (old(self)@.0, old(self)@.1.len() == 1, old(self)@.1[0]),
            ) && final(self)@ == (false, old(self)@.1.drop_first()),
    {
        let first = self.first;
        self.first = false;
        match self.rest.pop_front() {
            Some(item) => {
                let last = self.rest.len() == 0;
                Some((first, last, item))
            },
            None => None,
        }
    }
}

/// Turns a collection into an [`Iter`] over its items.
pub trait IdentifyFirstLast: Sized {
    type Item;

    fn identify_first_last(self) -> Iter<Self::Item>;
}

impl<T> IdentifyFirstLast for Vec<T> {
    type Item = T;

    fn identify_first_last(self) -> (it: Iter<T>)
        ensures
            it@ == (true, self@),
    {
        let mut v = self;
        let ghost all = v@;
        let mut rest: VecDeque<T> = VecDeque::new();
        while v.len() > 0
            invariant
                v@.len() <= all.len(),
                v@ == all.subrange(0, v@.len() as int),
                rest@ == all.subrange(v@.len() as int, all.len() as int),
            decreases v@.len(),
        {
            let item = v.pop().unwrap();
            rest.push_front(item);
            assert(rest@ =~= all.subrange(v@.len() as int, all.len() as int));
            assert(v@ =~= all.subrange(0, v@.len() as int));
        }
        assert(rest@ =~= all);
        Iter { first: true, rest }
    }
}

/// Successive calls of `next` hand out, in order, the items tagged with
/// whether each is the first and whether it is the last of the collection.
pub proof fn lemma_first_last_run<T>(items: Seq<T>, it: Iter<T>)
    requires
        it@ == (true, items),
    ensures
        it.spec_run() == tag_first_last(items),
{
    assert(it.spec_run() =~= tag_first_last(items));
}

/// One call of `next` hands out the head of the run and leaves its tail.
pub proof fn lemma_next_advances_run<T>(before: Iter<T>, after: Iter<T>, r: Option<(bool, bool, T)>)
    requires
        before@.1.len() == 0 ==> r is None && after@ == (false, before@.1),
        before@.1.len() > 0 ==> r == Some((before@.0, before@.1.len() == 1, before@.1[0]))
            && after@ == (false, before@.1.drop_first()),
    ensures
        before.spec_run().len() == 0 ==> r is None && after.spec_run().len() == 0,
        before.spec_run().len() > 0 ==> r == Some(before.spec_run()[0]) && after.spec_run()
            == before.spec_run().drop_first(),
{
    if before.spec_run().len() > 0 {
        assert(after.spec_run() =~= before.spec_run().drop_first());
    }
}

/// The views of a list of string slices.
pub open spec fn str_views(v: Seq<&str>) -> Seq<Seq<char>> {
    Seq::new(v.len(), |i: int| v[i]@)
}

/// A value as it goes into the query: trimmed of whitespace, then of commas.
pub open spec fn clean_value(v: Seq<char>) -> Seq<char> {
    trim_class(trim_class(v, CharClass::WhiteSpace), CharClass::Comma)
}

/// The condition of one value: `<field>='<value>'`, led by ` AND ` when it
/// joins an earlier filter, followed by ` OR ` unless it is the last value.
pub open spec fn condition(field: Seq<char>, v: Seq<char>, lead_and: bool, is_last: bool) -> Seq<
    char,
> {
    (if lead_and {
        " AND "@
    } else {
        Seq::empty()
    }) + field + clean_value(v) + "'"@ + (if is_last {
        Seq::empty()
    } else {
        " OR "@
    })
}

/// The conditions of the first `k` values.
pub open spec fn conditions_upto(field: Seq<char>, vals: Seq<Seq<char>>, joins: bool, k: nat) -> Seq<
    char,
>
    decreases k,
{
    if k == 0 {
        Seq::empty()
    } else {
        conditions_upto(field, vals, joins, (k - 1) as nat) + condition(
            field,
            vals[k - 1],
            joins && k - 1 == 0,
            k - 1 == vals.len() - 1,
        )
    }
}

/// The filter that one list of values makes: one condition per value.
pub open spec fn filter_text(field: Seq<char>, vals: Seq<Seq<char>>, joins: bool) -> Seq<char> {
    conditions_upto(field, vals, joins, vals.len())
}

/// The query text: every entry of the target when `print_all`, otherwise
/// the entries that the status code and host filters select, or, for a
/// deletion, that the status code, host and id filters select.
pub open spec fn query_text(
    target: Seq<char>,
    hosts: Seq<Seq<char>>,
    status_codes: Seq<Seq<char>>,
    ids: Seq<Seq<char>>,
    print_all: bool,
    delete: bool,
) -> Seq<char> {
    let sc = filter_text("status_code='"@, status_codes, false);
    let h = filter_text("host='"@, hosts, status_codes.len() > 0);
    let id = filter_text("id='"@, ids, status_codes.len() > 0 || hosts.len() > 0);
    if print_all {
        "SELECT * FROM "@ + target
    } else if delete {
        "DELETE FROM "@ + target + " WHERE "@ + sc + h + id
    } else {
        "SELECT * FROM "@ + target + " WHERE "@ + sc + h
    }
}

/// The value cleaned for a query: whitespace, then commas, trimmed away.
pub fn clean(v: &str) -> (r: String)
    ensures
        r@ == clean_value(v@),
{
    let chars = chars_of(v);
    let (a, b) = trim_bounds(&chars, 0, chars.len(), CharClass::WhiteSpace);
    let (c, d) = trim_bounds(&chars, a, b, CharClass::Comma);
    assert(chars@.subrange(0, chars@.len() as int) =~= chars@);
    string_of(&chars, c, d)
}

/// Appends to `out` the filter that `vals` makes on the field.
fn append_filter(out: &mut String, field: &str, vals: Vec<&str>, joins: bool)
    ensures
        final(out)@ == old(out)@ + filter_text(field@, str_views(vals@), joins),
{
    let ghost views = str_views(vals@);
    let ghost n = vals@.len();
    let ghost start = out@;
    let mut it = vals.identify_first_last();
    let ghost mut k: nat = 0;
    loop
        invariant_except_break
            it@.0 == (k == 0),
        invariant
            k <= n,
            views.len() == n,
            it@.1.len() == n - k,
            forall|i: int| 0 <= i < n - k ==> (#[trigger] it@.1[i])@ == views[k + i],
            out@ == start + conditions_upto(field@, views, joins, k),
        ensures
            out@ == start + conditions_upto(field@, views, joins, n),
        decreases n - k,
    {
        let ghost before = it@;
        match it.next() {
            Some((is_first, is_last, val)) => {
                assert(val@ == views[k as int]);
                let v = clean(val);
                if joins && is_first {
                    out.append(" AND ");
                }
                out.append(field);
                out.append(v.as_str());
                out.append("'");
                if !is_last {
                    out.append(" OR ");
                }
                proof {
                    assert forall|i: int| 0 <= i < n - (k + 1) implies (#[trigger] it@.1[i])@
                        == views[(k + 1) + i] by {
                        assert(it@.1[i] == before.1[i + 1]);
                    }
                    assert(out@ =~= start + conditions_upto(field@, views, joins, k + 1));
                    k = k + 1;
                }
            },
            None => {
                break ;
            },
        }
    }
}

/// Builds the query text (see [`query_text`]).
pub fn query_builder(
    target: &str,
    host: Vec<&str>,
    status_code: Vec<&str>,
    ids: Vec<&str>,
    print_all: bool,
    delete: bool,
) -> (q: String)
    ensures
        q@ == query_text(
            target@,
            str_views(host@),
            str_views(status_code@),
            str_views(ids@),
            print_all,
            delete,
        ),
{
    let status_code_empty = status_code.len() == 0;
    let host_empty = host.len() == 0;
    let ghost hv = str_views(host@);
    let ghost sv = str_views(status_code@);
    let ghost iv = str_views(ids@);
    let mut start = String::new();
    if delete {
        start.append("DELETE FROM ");
    } else {
        start.append("SELECT * FROM ");
    }
    start.append(target);
    start.append(" WHERE ");
    let mut status_code_query = String::new();
    let mut host_query = String::new();
    let mut id_query = String::new();
    append_filter(&mut status_code_query, "status_code='", status_code, false);
    append_filter(&mut host_query, "host='", host, !status_code_empty);
    append_filter(&mut id_query, "id='", ids, !status_code_empty || !host_empty);
    if print_all {
        let mut all = String::new();
        all.append("SELECT * FROM ");
        all.append(target);
        assert(all@ =~= query_text(target@, hv, sv, iv, print_all, delete));
        all
    } else if delete {
        start.append(status_code_query.as_str());
        start.append(host_query.as_str());
        start.append(id_query.as_str());
        assert(start@ =~= query_text(target@, hv, sv, iv, print_all, delete));
        start
    } else {
        start.append(status_code_query.as_str());
        start.append(host_query.as_str());
        assert(start@ =~= query_text(target@, hv, sv, iv, print_all, delete));
        start
    }
}

/// One filter as a group: the conditions on its values, joined by ` OR `, in
/// parentheses.
pub open spec fn group_text(field: Seq<char>, vals: Seq<Seq<char>>) -> Seq<char> {
    "("@ + filter_text(field, vals, false) + ")"@
}

/// The conditions of the filters that were given: one group per non-empty
/// list of values, joined by ` AND `, so that a row is selected only when it
/// meets every filter.
pub open spec fn grouped_conditions(
    hosts: Seq<Seq<char>>,
    status_codes: Seq<Seq<char>>,
    ids: Seq<Seq<char>>,
) -> Seq<char> {
    let sc = status_codes.len() > 0;
    let h = hosts.len() > 0;
    let i = ids.len() > 0;
    (if sc {
        group_text("status_code='"@, status_codes)
    } else {
        Seq::empty()
    }) + (if h {
        (if sc {
            " AND "@
        } else {
            Seq::empty()
        }) + group_text("host='"@, hosts)
    } else {
        Seq::empty()
    }) + (if i {
        (if sc || h {
            " AND "@
        } else {
            Seq::empty()
        }) + group_text("id='"@, ids)
    } else {
        Seq::empty()
    })
}

/// The statement that reads, or deletes, the entries of the target that
/// meet every filter given; with no filter, every entry.
pub open spec fn filtered_query_text(
    target: Seq<char>,
    hosts: Seq<Seq<char>>,
    status_codes: Seq<Seq<char>>,
    ids: Seq<Seq<char>>,
    delete: bool,
) -> Seq<char> {
    (if delete {
        "DELETE FROM "@
    } else {
        "SELECT * FROM "@
    }) + target + (if hosts.len() > 0 || status_codes.len() > 0 || ids.len() > 0 {
        " WHERE "@ + grouped_conditions(hosts, status_codes, ids)
    } else {
        Seq::empty()
    })
}

fn append_group(out: &mut String, field: &str, vals: Vec<&str>)
    ensures
        final(out)@ == old(out)@ + group_text(field@, str_views(vals@)),
{
    let ghost start = out@;
    out.append("(");
    append_filter(out, field, vals, false);
    out.append(")");
    assert(out@ =~= start + group_text(field@, str_views(vals@)));
}

/// Builds the statement that reads, or deletes, the entries of the target
/// that meet every filter given (see [`filtered_query_text`]).
pub fn filtered_query(
    target: &str,
    host: Vec<&str>,
    status_code: Vec<&str>,
    ids: Vec<&str>,
    delete: bool,
) -> (q: String)
    ensures
        q@ == filtered_query_text(
            target@,
            str_views(host@),
            str_views(status_code@),
            str_views(ids@),
            delete,
        ),
{
    let ghost hv = str_views(host@);
    let ghost sv = str_views(status_code@);
    let ghost iv = str_views(ids@);
    let sc = status_code.len() > 0;
    let h = host.len() > 0;
    let i = ids.len() > 0;
    let mut q = if delete {
        String::from_str("DELETE FROM ")
    } else {
        String::from_str("SELECT * FROM ")
    };
    q.append(target);
    let ghost head = q@;
    if sc || h || i {
        q.append(" WHERE ");
        let ghost before = q@;
        if sc {
            append_group(&mut q, "status_code='", status_code);
        }
        if h {
            if sc {
                q.append(" AND ");
            }
            append_group(&mut q, "host='", host);
        }
        if i {
            if sc || h {
                q.append(" AND ");
            }
            append_group(&mut q, "id='", ids);
        }
        assert(q@ =~= before + grouped_conditions(hv, sv, iv));
    }
    assert(q@ =~= filtered_query_text(target@, hv, sv, iv, delete));
    q
}

/// With no filter, the statement covers every entry of the target.
pub proof fn lemma_no_filter_covers_everything(target: Seq<char>, delete: bool)
    ensures
        filtered_query_text(target, Seq::empty(), Seq::empty(), Seq::empty(), delete) == (if delete {
            "DELETE FROM "@
        } else {
            "SELECT * FROM "@
        }) + target,
{
    assert(filtered_query_text(target, Seq::empty(), Seq::empty(), Seq::empty(), delete) =~= (
    if delete {
        "DELETE FROM "@
    } else {
        "SELECT * FROM "@
    }) + target);
}

/// A read (not a deletion) does not depend on the ids given.
pub proof fn lemma_select_ignores_ids(
    target: Seq<char>,
    hosts: Seq<Seq<char>>,
    status_codes: Seq<Seq<char>>,
    ids1: Seq<Seq<char>>,
    ids2: Seq<Seq<char>>,
    print_all: bool,
)
    ensures
        query_text(target, hosts, status_codes, ids1, print_all, false) == query_text(
            target,
            hosts,
            status_codes,
            ids2,
            print_all,
            false,
        ),
{
}

/// With `print_all` the query selects every entry of the target, whatever
/// the filters.
pub proof fn lemma_print_all_selects_everything(
    target: Seq<char>,
    hosts: Seq<Seq<char>>,
    status_codes: Seq<Seq<char>>,
    ids: Seq<Seq<char>>,
    delete: bool,
)
    ensures
        query_text(target, hosts, status_codes, ids, true, delete) == "SELECT * FROM "@ + target,
{
}

/// A filter of one value is one condition on its cleaned value, with no
/// ` OR `.
pub proof fn lemma_single_value_filter(field: Seq<char>, v: Seq<char>, joins: bool)
    ensures
        filter_text(field, seq![v], joins) == (if joins {
            " AND "@
        } else {
            Seq::empty()
        }) + field + clean_value(v) + "'"@,
{
    assert(conditions_upto(field, seq![v], joins, 0) =~= Seq::empty());
    assert(filter_text(field, seq![v], joins) =~= (if joins {
        " AND "@
    } else {
        Seq::empty()
    }) + field + clean_value(v) + "'"@);
}

/// A filter of `n + 1` values is the filter of the first `n`, an ` OR `, and
/// the condition on the last value.
pub proof fn lemma_filter_extends(field: Seq<char>, vals: Seq<Seq<char>>, v: Seq<char>, joins: bool)
    requires
        vals.len() > 0,
    ensures
        filter_text(field, vals.push(v), joins) == filter_text(field, vals, joins) + " OR "@
            + field + clean_value(v) + "'"@,
{
    let w = vals.push(v);
    let n = vals.len();
    let lead: Seq<char> = if joins && n - 1 == 0 {
        " AND "@
    } else {
        Seq::empty()
    };
    lemma_prefix_conditions(field, vals, v, joins, (n - 1) as nat);
    assert(w[n - 1] == vals[n - 1]);
    assert(w[n as int] == v);
    let base = conditions_upto(field, vals, joins, (n - 1) as nat);
    let mid = lead + field + clean_value(vals[n - 1]) + "'"@;
    assert(filter_text(field, vals, joins) =~= base + mid);
    assert(conditions_upto(field, w, joins, n) =~= base + (mid + " OR "@));
    assert(filter_text(field, w, joins) =~= base + (mid + " OR "@) + (field + clean_value(v)
        + "'"@));
    assert(filter_text(field, w, joins) =~= filter_text(field, vals, joins) + " OR "@ + field
        + clean_value(v) + "'"@);
}

proof fn lemma_prefix_conditions(field: Seq<char>, vals: Seq<Seq<char>>, v: Seq<char>, joins: bool, k: nat)
    requires
        k < vals.len(),
    ensures
        conditions_upto(field, vals.push(v), joins, k) == conditions_upto(field, vals, joins, k),
    decreases k,
{
    if k > 0 {
        lemma_prefix_conditions(field, vals, v, joins, (k - 1) as nat);
        assert(vals.push(v)[k - 1] == vals[k - 1]);
    }
}

proof fn lemma_conditions_lead(field: Seq<char>, vals: Seq<Seq<char>>, k: nat)
    requires
        1 <= k <= vals.len(),
    ensures
        conditions_upto(field, vals, true, k) == " AND "@ + conditions_upto(field, vals, false, k),
    decreases k,
{
    if k == 1 {
        assert(conditions_upto(field, vals, true, 0) =~= Seq::empty());
        assert(conditions_upto(field, vals, false, 0) =~= Seq::empty());
        assert(conditions_upto(field, vals, true, 1) =~= " AND "@ + conditions_upto(field, vals, false, 1));
    } else {
        lemma_conditions_lead(field, vals, (k - 1) as nat);
        assert(conditions_upto(field, vals, true, k) =~= " AND "@ + conditions_upto(field, vals, false, k));
    }
}

/// A filter that joins an earlier one is that filter led by ` AND `; an
/// empty list of values makes no filter at all.
pub proof fn lemma_filter_join(field: Seq<char>, vals: Seq<Seq<char>>)
    ensures
        vals.len() == 0 ==> filter_text(field, vals, true) == Seq::<char>::empty() && filter_text(
            field,
            vals,
            false,
        ) == Seq::<char>::empty(),
        vals.len() > 0 ==> filter_text(field, vals, true) == " AND "@ + filter_text(field, vals, false),
{
    if vals.len() > 0 {
        lemma_conditions_lead(field, vals, vals.len());
    }
}

/// The filter of a non-empty list starts with the condition on its first
/// value.
pub proof fn lemma_filter_starts_with_first(field: Seq<char>, vals: Seq<Seq<char>>)
    requires
        vals.len() > 0,
    ensures
        exists|r: Seq<char>|
            filter_text(field, vals, false) == field + clean_value(vals[0]) + "'"@ + r,
{
    lemma_conditions_prefix(field, vals, vals.len());
    let r = filter_text(field, vals, false).skip((field + clean_value(vals[0]) + "'"@).len() as int);
    assert(filter_text(field, vals, false) =~= field + clean_value(vals[0]) + "'"@ + r);
}

proof fn lemma_conditions_prefix(field: Seq<char>, vals: Seq<Seq<char>>, k: nat)
    requires
        1 <= k <= vals.len(),
    ensures
        (field + clean_value(vals[0]) + "'"@).len() <= conditions_upto(field, vals, false, k).len(),
        conditions_upto(field, vals, false, k).take((field + clean_value(vals[0]) + "'"@).len() as int)
            == field + clean_value(vals[0]) + "'"@,
    decreases k,
{
    let p = field + clean_value(vals[0]) + "'"@;
    if k == 1 {
        assert(conditions_upto(field, vals, false, 0) =~= Seq::empty());
        assert(conditions_upto(field, vals, false, 1).take(p.len() as int) =~= p);
    } else {
        lemma_conditions_prefix(field, vals, (k - 1) as nat);
        let prev = conditions_upto(field, vals, false, (k - 1) as nat);
        assert(conditions_upto(field, vals, false, k).take(p.len() as int) =~= prev.take(p.len() as int));
    }
}

/// The shape of a query: a deletion is `DELETE FROM <target> WHERE ` and a
/// read `SELECT * FROM <target> WHERE `, followed by the status code filter,
/// the host filter and, for a deletion, the id filter, each a list of
/// conditions joined by ` OR `, and each joined to a non-empty filter before
/// it by ` AND `.
pub proof fn lemma_query_shape(
    target: Seq<char>,
    hosts: Seq<Seq<char>>,
    status_codes: Seq<Seq<char>>,
    ids: Seq<Seq<char>>,
)
    ensures
        query_text(target, hosts, status_codes, ids, false, false) == "SELECT * FROM "@ + target
            + " WHERE "@ + filter_text("status_code='"@, status_codes, false) + (if status_codes.len()
            > 0 && hosts.len() > 0 {
            " AND "@
        } else {
            Seq::empty()
        }) + filter_text("host='"@, hosts, false),
        query_text(target, hosts, status_codes, ids, false, true) == "DELETE FROM "@ + target
            + " WHERE "@ + filter_text("status_code='"@, status_codes, false) + (if status_codes.len()
            > 0 && hosts.len() > 0 {
            " AND "@
        } else {
            Seq::empty()
        }) + filter_text("host='"@, hosts, false) + (if (status_codes.len() > 0 || hosts.len() > 0)
            && ids.len() > 0 {
            " AND "@
        } else {
            Seq::empty()
        }) + filter_text("id='"@, ids, false),
{
    lemma_filter_join("host='"@, hosts);
    lemma_filter_join("id='"@, ids);
    let sc = filter_text("status_code='"@, status_codes, false);
    let h = filter_text("host='"@, hosts, status_codes.len() > 0);
    let hf = filter_text("host='"@, hosts, false);
    let id = filter_text("id='"@, ids, status_codes.len() > 0 || hosts.len() > 0);
    let idf = filter_text("id='"@, ids, false);
    let ha: Seq<char> = if status_codes.len() > 0 && hosts.len() > 0 {
        " AND "@
    } else {
        Seq::empty()
    };
    let ia: Seq<char> = if (status_codes.len() > 0 || hosts.len() > 0) && ids.len() > 0 {
        " AND "@
    } else {
        Seq::empty()
    };
    assert(h =~= ha + hf);
    assert(id =~= ia + idf);
    assert(query_text(target, hosts, status_codes, ids, false, false) =~= "SELECT * FROM "@ + target
        + " WHERE "@ + sc + ha + hf);
    assert(query_text(target, hosts, status_codes, ids, false, true) =~= "DELETE FROM "@ + target
        + " WHERE "@ + sc + ha + hf + ia + idf);
}

/// A deletion by status code and id: the id condition is joined by ` AND `.
pub proof fn lemma_delete_by_code_and_id(target: Seq<char>, code: Seq<char>, id: Seq<char>)
    ensures
        query_text(target, Seq::empty(), seq![code], seq![id], false, true) == "DELETE FROM "@ + target
            + " WHERE "@ + "status_code='"@ + clean_value(code) + "'"@ + " AND "@ + "id='"@
            + clean_value(id) + "'"@,
{
    lemma_query_shape(target, Seq::empty(), seq![code], seq![id]);
    lemma_filter_join("host='"@, Seq::empty());
    lemma_single_value_filter("status_code='"@, code, false);
    lemma_single_value_filter("id='"@, id, false);
    assert(query_text(target, Seq::empty(), seq![code], seq![id], false, true) =~= "DELETE FROM "@
        + target + " WHERE "@ + "status_code='"@ + clean_value(code) + "'"@ + " AND "@ + "id='"@
        + clean_value(id) + "'"@);
}

/// The start of a statement: `DELETE FROM ` or `SELECT * FROM `.
pub open spec fn statement_head(delete: bool) -> Seq<char> {
    if delete {
        "DELETE FROM "@
    } else {
        "SELECT * FROM "@
    }
}

/// A statement with one filter only: the statement on the target, then
/// ` WHERE ` and that filter's conditions, joined by ` OR `, in
/// parentheses.
pub proof fn lemma_filtered_single_filter(target: Seq<char>, vals: Seq<Seq<char>>, delete: bool)
    requires
        vals.len() > 0,
    ensures
        filtered_query_text(target, vals, Seq::empty(), Seq::empty(), delete) == statement_head(delete)
            + target + " WHERE "@ + "("@ + filter_text("host='"@, vals, false) + ")"@,
        filtered_query_text(target, Seq::empty(), vals, Seq::empty(), delete) == statement_head(delete)
            + target + " WHERE "@ + "("@ + filter_text("status_code='"@, vals, false) + ")"@,
        filtered_query_text(target, Seq::empty(), Seq::empty(), vals, delete) == statement_head(delete)
            + target + " WHERE "@ + "("@ + filter_text("id='"@, vals, false) + ")"@,
{
    let e = Seq::<Seq<char>>::empty();
    assert(filtered_query_text(target, vals, e, e, delete) =~= statement_head(delete) + target
        + " WHERE "@ + "("@ + filter_text("host='"@, vals, false) + ")"@);
    assert(filtered_query_text(target, e, vals, e, delete) =~= statement_head(delete) + target
        + " WHERE "@ + "("@ + filter_text("status_code='"@, vals, false) + ")"@);
    assert(filtered_query_text(target, e, e, vals, delete) =~= statement_head(delete) + target
        + " WHERE "@ + "("@ + filter_text("id='"@, vals, false) + ")"@);
}

/// Adding a host filter to a statement that filters by status code adds
/// ` AND ` and the host group; adding an id filter to a statement that has a
/// filter adds ` AND ` and the id group. So every filter given narrows the
/// statement, as one more parenthesized group joined by ` AND `.
pub proof fn lemma_filtered_adds_groups(
    target: Seq<char>,
    hosts: Seq<Seq<char>>,
    status_codes: Seq<Seq<char>>,
    ids: Seq<Seq<char>>,
    delete: bool,
)
    ensures
        status_codes.len() > 0 && hosts.len() > 0 ==> filtered_query_text(
            target,
            hosts,
            status_codes,
            Seq::empty(),
            delete,
        ) == filtered_query_text(target, Seq::empty(), status_codes, Seq::empty(), delete)
            + " AND "@ + "("@ + filter_text("host='"@, hosts, false) + ")"@,
        (status_codes.len() > 0 || hosts.len() > 0) && ids.len() > 0 ==> filtered_query_text(
            target,
            hosts,
            status_codes,
            ids,
            delete,
        ) == filtered_query_text(target, hosts, status_codes, Seq::empty(), delete) + " AND "@
            + "("@ + filter_text("id='"@, ids, false) + ")"@,
{
    let e = Seq::<Seq<char>>::empty();
    if status_codes.len() > 0 && hosts.len() > 0 {
        assert(filtered_query_text(target, hosts, status_codes, e, delete) =~= filtered_query_text(
            target,
            e,
            status_codes,
            e,
            delete,
        ) + " AND "@ + "("@ + filter_text("host='"@, hosts, false) + ")"@);
    }
    if (status_codes.len() > 0 || hosts.len() > 0) && ids.len() > 0 {
        assert(filtered_query_text(target, hosts, status_codes, ids, delete) =~= filtered_query_text(
            target,
            hosts,
            status_codes,
            e,
            delete,
        ) + " AND "@ + "("@ + filter_text("id='"@, ids, false) + ")"@);
    }
}

/// A statement has a ` WHERE ` clause exactly when some filter is given, and
/// then every filter given stands in it, as the conditions on its values
/// joined by ` OR ` in parentheses, so that none is dropped.
pub proof fn lemma_filtered_keeps_every_filter(
    target: Seq<char>,
    hosts: Seq<Seq<char>>,
    status_codes: Seq<Seq<char>>,
    ids: Seq<Seq<char>>,
    delete: bool,
)
    ensures
        hosts.len() == 0 && status_codes.len() == 0 && ids.len() == 0 ==> filtered_query_text(
            target,
            hosts,
            status_codes,
            ids,
            delete,
        ) == statement_head(delete) + target,
        hosts.len() > 0 || status_codes.len() > 0 || ids.len() > 0 ==> exists|r: Seq<char>|
            filtered_query_text(target, hosts, status_codes, ids, delete) == statement_head(delete)
                + target + " WHERE "@ + "("@ + r,
        hosts.len() > 0 ==> exists|a: Seq<char>, b: Seq<char>|
            filtered_query_text(target, hosts, status_codes, ids, delete) == a + "("@ + filter_text(
                "host='"@,
                hosts,
                false,
            ) + ")"@ + b,
        status_codes.len() > 0 ==> exists|a: Seq<char>, b: Seq<char>|
            filtered_query_text(target, hosts, status_codes, ids, delete) == a + "("@ + filter_text(
                "status_code='"@,
                status_codes,
                false,
            ) + ")"@ + b,
        ids.len() > 0 ==> exists|a: Seq<char>, b: Seq<char>|
            filtered_query_text(target, hosts, status_codes, ids, delete) == a + "("@ + filter_text(
                "id='"@,
                ids,
                false,
            ) + ")"@ + b,
{
    let q = filtered_query_text(target, hosts, status_codes, ids, delete);
    let head = statement_head(delete) + target;
    let g = grouped_conditions(hosts, status_codes, ids);
    if hosts.len() == 0 && status_codes.len() == 0 && ids.len() == 0 {
        assert(q =~= head);
    } else {
        let w = head + " WHERE "@;
        assert(q == w + g);
        lemma_grouped_starts(hosts, status_codes, ids);
        let r = choose|r: Seq<char>| g == "("@ + r;
        lemma_concat_associative(w, "("@, r);
        if hosts.len() > 0 {
            let f = filter_text("host='"@, hosts, false);
            lemma_grouped_has_host(hosts, status_codes, ids);
            let (a, b) = choose|a: Seq<char>, b: Seq<char>| g == a + "("@ + f + ")"@ + b;
            lemma_group_in_context(w, a, f, b);
        }
        if status_codes.len() > 0 {
            let f = filter_text("status_code='"@, status_codes, false);
            lemma_grouped_has_status_code(hosts, status_codes, ids);
            let (a, b) = choose|a: Seq<char>, b: Seq<char>| g == a + "("@ + f + ")"@ + b;
            lemma_group_in_context(w, a, f, b);
        }
        if ids.len() > 0 {
            let f = filter_text("id='"@, ids, false);
            lemma_grouped_has_id(hosts, status_codes, ids);
            let (a, b) = choose|a: Seq<char>, b: Seq<char>| g == a + "("@ + f + ")"@ + b;
            lemma_group_in_context(w, a, f, b);
        }
    }
}

proof fn lemma_group_in_context(w: Seq<char>, a: Seq<char>, f: Seq<char>, b: Seq<char>)
    ensures
        w + (a + "("@ + f + ")"@ + b) == (w + a) + "("@ + f + ")"@ + b,
{
    assert(w + (a + "("@ + f + ")"@ + b) =~= (w + a) + "("@ + f + ")"@ + b);
}

proof fn lemma_group_first(f: Seq<char>, u: Seq<char>, v: Seq<char>)
    ensures
        ("("@ + f + ")"@) + u + v == Seq::<char>::empty() + "("@ + f + ")"@ + (u + v),
        ("("@ + f + ")"@) + u + v == "("@ + (f + ")"@ + u + v),
{
    assert(("("@ + f + ")"@) + u + v =~= Seq::<char>::empty() + "("@ + f + ")"@ + (u + v));
    assert(("("@ + f + ")"@) + u + v =~= "("@ + (f + ")"@ + u + v));
}

proof fn lemma_group_middle(x: Seq<char>, y: Seq<char>, f: Seq<char>, z: Seq<char>)
    ensures
        x + (y + ("("@ + f + ")"@)) + z == (x + y) + "("@ + f + ")"@ + z,
{
    assert(x + (y + ("("@ + f + ")"@)) + z =~= (x + y) + "("@ + f + ")"@ + z);
}

proof fn lemma_group_last(x: Seq<char>, y: Seq<char>, f: Seq<char>)
    ensures
        x + (y + ("("@ + f + ")"@)) == (x + y) + "("@ + f + ")"@ + Seq::<char>::empty(),
{
    assert(x + (y + ("("@ + f + ")"@)) =~= (x + y) + "("@ + f + ")"@ + Seq::<char>::empty());
}

proof fn lemma_grouped_starts(hosts: Seq<Seq<char>>, status_codes: Seq<Seq<char>>, ids: Seq<Seq<char>>)
    requires
        hosts.len() > 0 || status_codes.len() > 0 || ids.len() > 0,
    ensures
        exists|r: Seq<char>| grouped_conditions(hosts, status_codes, ids) == "("@ + r,
{
    let g = grouped_conditions(hosts, status_codes, ids);
    let fs = filter_text("status_code='"@, status_codes, false);
    let fh = filter_text("host='"@, hosts, false);
    let fi = filter_text("id='"@, ids, false);
    let e = Seq::<char>::empty();
    if status_codes.len() > 0 {
        let u = if hosts.len() > 0 { " AND "@ + group_text("host='"@, hosts) } else { e };
        let v = if ids.len() > 0 { " AND "@ + group_text("id='"@, ids) } else { e };
        assert(g == ("("@ + fs + ")"@) + u + v);
        lemma_group_first(fs, u, v);
    } else if hosts.len() > 0 {
        let v = if ids.len() > 0 { " AND "@ + group_text("id='"@, ids) } else { e };
        assert(g == e + ("("@ + fh + ")"@) + v);
        assert(e + ("("@ + fh + ")"@) == ("("@ + fh + ")"@)) by {
            assert(e + ("("@ + fh + ")"@) =~= ("("@ + fh + ")"@));
        }
        lemma_group_first(fh, v, e);
        assert(("("@ + fh + ")"@) + v + e == ("("@ + fh + ")"@) + v) by {
            assert(("("@ + fh + ")"@) + v + e =~= ("("@ + fh + ")"@) + v);
        }
    } else {
        assert(g == e + e + (e + ("("@ + fi + ")"@)));
        assert(g =~= "("@ + (fi + ")"@));
    }
}

proof fn lemma_grouped_has_status_code(
    hosts: Seq<Seq<char>>,
    status_codes: Seq<Seq<char>>,
    ids: Seq<Seq<char>>,
)
    requires
        status_codes.len() > 0,
    ensures
        exists|a: Seq<char>, b: Seq<char>|
            grouped_conditions(hosts, status_codes, ids) == a + "("@ + filter_text(
                "status_code='"@,
                status_codes,
                false,
            ) + ")"@ + b,
{
    let fs = filter_text("status_code='"@, status_codes, false);
    let e = Seq::<char>::empty();
    let u = if hosts.len() > 0 { " AND "@ + group_text("host='"@, hosts) } else { e };
    let v = if ids.len() > 0 { " AND "@ + group_text("id='"@, ids) } else { e };
    assert(grouped_conditions(hosts, status_codes, ids) == ("("@ + fs + ")"@) + u + v);
    lemma_group_first(fs, u, v);
}

proof fn lemma_grouped_has_host(hosts: Seq<Seq<char>>, status_codes: Seq<Seq<char>>, ids: Seq<Seq<char>>)
    requires
        hosts.len() > 0,
    ensures
        exists|a: Seq<char>, b: Seq<char>|
            grouped_conditions(hosts, status_codes, ids) == a + "("@ + filter_text(
                "host='"@,
                hosts,
                false,
            ) + ")"@ + b,
{
    let fh = filter_text("host='"@, hosts, false);
    let e = Seq::<char>::empty();
    let x = if status_codes.len() > 0 { group_text("status_code='"@, status_codes) } else { e };
    let y = if status_codes.len() > 0 { " AND "@ } else { e };
    let z = if ids.len() > 0 { " AND "@ + group_text("id='"@, ids) } else { e };
    assert(grouped_conditions(hosts, status_codes, ids) == x + (y + ("("@ + fh + ")"@)) + z);
    lemma_group_middle(x, y, fh, z);
}

proof fn lemma_grouped_has_id(hosts: Seq<Seq<char>>, status_codes: Seq<Seq<char>>, ids: Seq<Seq<char>>)
    requires
        ids.len() > 0,
    ensures
        exists|a: Seq<char>, b: Seq<char>|
            grouped_conditions(hosts, status_codes, ids) == a + "("@ + filter_text(
                "id='"@,
                ids,
                false,
            ) + ")"@ + b,
{
    let fi = filter_text("id='"@, ids, false);
    let e = Seq::<char>::empty();
    let x1 = if status_codes.len() > 0 { group_text("status_code='"@, status_codes) } else { e };
    let x2 = if hosts.len() > 0 {
        (if status_codes.len() > 0 { " AND "@ } else { e }) + group_text("host='"@, hosts)
    } else {
        e
    };
    let x = x1 + x2;
    let y = if status_codes.len() > 0 || hosts.len() > 0 { " AND "@ } else { e };
    assert(grouped_conditions(hosts, status_codes, ids) == x1 + x2 + (y + ("("@ + fi + ")"@)));
    lemma_group_last(x, y, fi);
}

} // verus!
