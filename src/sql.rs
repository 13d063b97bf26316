//! The SQL text with which the relational backend answers a query.
use crate::{Query, Status, TaskId, Type};
use vstd::prelude::*;
use vstd::string::StringSliceAdditionalSpecFns;

verus! {

/// Decimal digits of `n`, in ASCII.
pub open spec fn digits(n: nat) -> Seq<u8>
    decreases n,
{
    if n < 10 {
        seq![(48 + n) as u8]
    } else {
        digits(n / 10).push((48 + n % 10) as u8)
    }
}

/// The pieces, separated by a comma and a space.
pub open spec fn joined(pieces: Seq<Seq<u8>>) -> Seq<u8>
    decreases pieces.len(),
{
    if pieces.len() == 0 {
        Seq::empty()
    } else if pieces.len() == 1 {
        pieces[0]
    } else {
        joined(pieces.drop_last()) + ", ".spec_bytes() + pieces.last()
    }
}

/// A name between double quotes.
pub open spec fn quoted(name: Seq<u8>) -> Seq<u8> {
    "\"".spec_bytes() + name + "\"".spec_bytes()
}

/// One `AND` term, or nothing where the filter is absent.
pub open spec fn term<T>(v: Option<T>, f: spec_fn(T) -> Seq<u8>) -> Seq<u8> {
    match v {
        Some(x) => f(x),
        None => Seq::empty(),
    }
}

/// The term on the listed ids.
pub open spec fn ids_term(q: Query) -> Seq<u8> {
    term(
        q.task_id,
        |ids: Vec<TaskId>|
            " task_id IN (".spec_bytes() + joined(ids@.map_values(|i: TaskId| digits(i as nat)))
                + ") AND".spec_bytes(),
    )
}

/// The term on the lower bound of the ids.
pub open spec fn after_term(q: Query) -> Seq<u8> {
    term(q.after_id, |a: TaskId| " task_id > ".spec_bytes() + digits(a as nat) + " AND".spec_bytes())
}

/// The term on the upper bound of the ids.
pub open spec fn before_term(q: Query) -> Seq<u8> {
    term(q.before_id, |b: TaskId| " task_id < ".spec_bytes() + digits(b as nat) + " AND".spec_bytes())
}

/// The term on the statuses.
pub open spec fn statuses_term(q: Query) -> Seq<u8> {
    term(
        q.statuses,
        |ss: Vec<Status>|
            " status IN (".spec_bytes() + joined(ss@.map_values(|s: Status| quoted(s.spec_name())))
                + ") AND".spec_bytes(),
    )
}

/// The term on the types.
pub open spec fn types_term(q: Query) -> Seq<u8> {
    term(
        q.types,
        |ts: Vec<Type>|
            " type IN (".spec_bytes() + joined(ts@.map_values(|k: Type| quoted(k.spec_name())))
                + ") AND".spec_bytes(),
    )
}

/// The `WHERE` clause: one term per filter that the query sets.
pub open spec fn where_clause(q: Query) -> Seq<u8> {
    " WHERE".spec_bytes() + ids_term(q) + after_term(q) + before_term(q) + statuses_term(q)
        + types_term(q)
}

/// The whole statement: every filter becomes a term ending in `AND`, closed
/// by `true`, then ascending order of id and the page as `LIMIT` and
/// `OFFSET`.
pub open spec fn sql_text(q: Query) -> Seq<u8> {
    "SELECT task_id, status, type FROM tasks".spec_bytes() + where_clause(q)
        + " true ORDER BY task_id LIMIT ".spec_bytes() + digits(q.limit as nat)
        + " OFFSET ".spec_bytes() + digits(q.offset as nat) + ";".spec_bytes()
}

fn push_str(out: &mut Vec<u8>, s: &str)
    ensures
        final(out)@ == old(out)@ + s.spec_bytes(),
{
    let b = s.as_bytes();
    push_bytes(out, b);
}

fn push_bytes(out: &mut Vec<u8>, b: &[u8])
    ensures
        final(out)@ == old(out)@ + b@,
{
    let ghost start = out@;
    let mut i: usize = 0;
    while i < b.len()
        invariant
            i <= b@.len(),
            out@ == start + b@.subrange(0, i as int),
        decreases b@.len() - i,
    {
        out.push(b[i]);
        proof {
            assert(b@.subrange(0, i + 1) =~= b@.subrange(0, i as int).push(b@[i as int]));
            assert(start + b@.subrange(0, i + 1) =~= (start + b@.subrange(0, i as int)).push(b@[i as int]));
        }
        i = i + 1;
    }
    proof {
        assert(b@.subrange(0, b@.len() as int) =~= b@);
    }
}

/// Appends the decimal digits of `n`.
pub fn push_decimal(out: &mut Vec<u8>, n: u64)
    ensures
        final(out)@ == old(out)@ + digits(n as nat),
    decreases n,
{
    if n >= 10 {
        push_decimal(out, n / 10);
    }
    out.push(48 + (n % 10) as u8);
    proof {
        if n >= 10 {
            assert(old(out)@ + digits(n as nat) =~= (old(out)@ + digits((n / 10) as nat)).push((48 + n % 10) as u8));
        } else {
            assert(old(out)@ + digits(n as nat) =~= old(out)@.push((48 + n % 10) as u8));
        }
    }
}

fn push_id_list(out: &mut Vec<u8>, ids: &Vec<TaskId>)
    ensures
        final(out)@ == old(out)@ + joined(ids@.map_values(|i: TaskId| digits(i as nat))),
{
    let ghost start = out@;
    let ghost pieces = ids@.map_values(|i: TaskId| digits(i as nat));
    let mut i: usize = 0;
    while i < ids.len()
        invariant
            i <= ids@.len(),
            pieces == ids@.map_values(|i: TaskId| digits(i as nat)),
            out@ == start + joined(pieces.take(i as int)),
        decreases ids@.len() - i,
    {
        if i > 0 {
            push_str(out, ", ");
        }
        push_decimal(out, ids[i] as u64);
        proof {
            assert(pieces.take(i + 1).drop_last() =~= pieces.take(i as int));
            if i == 0 {
                assert(pieces.take(1)[0] == pieces[0]);
                assert(joined(pieces.take(0)) =~= Seq::<u8>::empty());
            }
        }
        i = i + 1;
    }
    proof {
        assert(pieces.take(ids@.len() as int) =~= pieces);
    }
}

fn push_status_list(out: &mut Vec<u8>, ss: &Vec<Status>)
    ensures
        final(out)@ == old(out)@ + joined(ss@.map_values(|s: Status| quoted(s.spec_name()))),
{
    let ghost start = out@;
    let ghost pieces = ss@.map_values(|s: Status| quoted(s.spec_name()));
    let mut i: usize = 0;
    while i < ss.len()
        invariant
            i <= ss@.len(),
            pieces == ss@.map_values(|s: Status| quoted(s.spec_name())),
            out@ == start + joined(pieces.take(i as int)),
        decreases ss@.len() - i,
    {
        if i > 0 {
            push_str(out, ", ");
        }
        let ghost at = out@;
        push_str(out, "\"");
        push_bytes(out, ss[i].name().as_slice());
        push_str(out, "\"");
        proof {
            assert(out@ =~= at + quoted(ss@[i as int].spec_name()));
            assert(pieces.take(i + 1).drop_last() =~= pieces.take(i as int));
            if i == 0 {
                assert(pieces.take(1)[0] == pieces[0]);
                assert(joined(pieces.take(0)) =~= Seq::<u8>::empty());
            }
        }
        i = i + 1;
    }
    proof {
        assert(pieces.take(ss@.len() as int) =~= pieces);
    }
}

fn push_type_list(out: &mut Vec<u8>, ts: &Vec<Type>)
    ensures
        final(out)@ == old(out)@ + joined(ts@.map_values(|k: Type| quoted(k.spec_name()))),
{
    let ghost start = out@;
    let ghost pieces = ts@.map_values(|k: Type| quoted(k.spec_name()));
    let mut i: usize = 0;
    while i < ts.len()
        invariant
            i <= ts@.len(),
            pieces == ts@.map_values(|k: Type| quoted(k.spec_name())),
            out@ == start + joined(pieces.take(i as int)),
        decreases ts@.len() - i,
    {
        if i > 0 {
            push_str(out, ", ");
        }
        let ghost at = out@;
        push_str(out, "\"");
        push_bytes(out, ts[i].name().as_slice());
        push_str(out, "\"");
        proof {
            assert(out@ =~= at + quoted(ts@[i as int].spec_name()));
            assert(pieces.take(i + 1).drop_last() =~= pieces.take(i as int));
            if i == 0 {
                assert(pieces.take(1)[0] == pieces[0]);
                assert(joined(pieces.take(0)) =~= Seq::<u8>::empty());
            }
        }
        i = i + 1;
    }
    proof {
        assert(pieces.take(ts@.len() as int) =~= pieces);
    }
}

fn push_ids_term(out: &mut Vec<u8>, q: &Query)
    ensures
        final(out)@ == old(out)@ + ids_term(*q),
{
    if let Some(ids) = &q.task_id {
        push_str(out, " task_id IN (");
        push_id_list(out, ids);
        push_str(out, ") AND");
        assert(final(out)@ =~= old(out)@ + ids_term(*q));
    } else {
        assert(final(out)@ =~= old(out)@ + ids_term(*q));
    }
}

fn push_bound_terms(out: &mut Vec<u8>, q: &Query)
    ensures
        final(out)@ == old(out)@ + after_term(*q) + before_term(*q),
{
    if let Some(a) = q.after_id {
        push_str(out, " task_id > ");
        push_decimal(out, a as u64);
        push_str(out, " AND");
    }
    let ghost mid = out@;
    assert(mid =~= old(out)@ + after_term(*q));
    if let Some(b) = q.before_id {
        push_str(out, " task_id < ");
        push_decimal(out, b as u64);
        push_str(out, " AND");
    }
    assert(out@ =~= mid + before_term(*q));
}

fn push_statuses_term(out: &mut Vec<u8>, q: &Query)
    ensures
        final(out)@ == old(out)@ + statuses_term(*q),
{
    if let Some(ss) = &q.statuses {
        push_str(out, " status IN (");
        push_status_list(out, ss);
        push_str(out, ") AND");
        assert(final(out)@ =~= old(out)@ + statuses_term(*q));
    } else {
        assert(final(out)@ =~= old(out)@ + statuses_term(*q));
    }
}

fn push_types_term(out: &mut Vec<u8>, q: &Query)
    ensures
        final(out)@ == old(out)@ + types_term(*q),
{
    if let Some(ts) = &q.types {
        push_str(out, " type IN (");
        push_type_list(out, ts);
        push_str(out, ") AND");
        assert(final(out)@ =~= old(out)@ + types_term(*q));
    } else {
        assert(final(out)@ =~= old(out)@ + types_term(*q));
    }
}

/// The SQL statement, in ASCII bytes, that selects the tasks answering `q`
/// from the `tasks` table.
pub fn select_statement(q: &Query) -> (r: Vec<u8>)
    ensures
        r@ == sql_text(*q),
{
    let mut out: Vec<u8> = Vec::new();
    push_str(&mut out, "SELECT task_id, status, type FROM tasks");
    let ghost head = out@;
    push_str(&mut out, " WHERE");
    push_ids_term(&mut out, q);
    push_bound_terms(&mut out, q);
    push_statuses_term(&mut out, q);
    push_types_term(&mut out, q);
    assert(out@ =~= head + where_clause(*q));
    push_str(&mut out, " true ORDER BY task_id LIMIT ");
    push_decimal(&mut out, q.limit as u64);
    push_str(&mut out, " OFFSET ");
    push_decimal(&mut out, q.offset as u64);
    push_str(&mut out, ";");
    proof {
        assert(out@ =~= sql_text(*q));
    }
    out
}

} // verus!
