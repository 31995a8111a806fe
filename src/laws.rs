//! Facts that relate the store operations to one another.
use vstd::prelude::*;
use crate::models::CommandView;
use crate::queries::{
    StoreView, alias_pos, has_alias, has_command, inserted, rename_error, renamed, well_formed_records,
    without, ListField,
};

verus! {

/// Right after a command is saved under an alias, looking the alias up gives
/// that command.
pub proof fn lemma_insert_then_retrieve(
    st: StoreView,
    command: Seq<char>,
    alias: Seq<char>,
    info: Seq<char>,
    service: Seq<char>,
)
    requires
        well_formed_records(st.records, st.last_id),
        !has_alias(st.records, alias),
        !has_command(st.records, command),
        st.last_id < i64::MAX,
    ensures
        ({
            let rs = inserted(st, command, alias, info, service);
            &&& has_alias(rs, alias)
            &&& alias_pos(rs, alias) == st.records.len()
            &&& rs[alias_pos(rs, alias)].command == command
        }),
{
    let rs = inserted(st, command, alias, info, service);
    let n = st.records.len() as int;
    assert(rs[n].alias == alias);
    let p = alias_pos(rs, alias);
    if p != n {
        assert(st.records[p].alias == alias);
    }
    assert(p == n);
}

/// After a rename from `a` to a different `b`, `b` finds the same record with
/// only its alias changed, and `a` finds nothing.
pub proof fn lemma_rename_keeps_record(rs: Seq<CommandView>, last_id: int, a: Seq<char>, b: Seq<char>)
    requires
        well_formed_records(rs, last_id),
        rename_error(rs, a, b) is None,
        a != b,
    ensures
        ({
            let after = renamed(rs, a, b);
            let before = rs[alias_pos(rs, a)];
            &&& has_alias(after, b)
            &&& after[alias_pos(after, b)] == (CommandView { alias: b, ..before })
            &&& !has_alias(after, a)
        }),
{
    let i = alias_pos(rs, a);
    let after = renamed(rs, a, b);
    assert(0 <= i < rs.len() && rs[i].alias == a);
    assert(after[i].alias == b);
    let p = alias_pos(after, b);
    if p != i {
        assert(rs[p].alias == b);
    }
    if has_alias(after, a) {
        let k = choose|k: int| 0 <= k < after.len() && #[trigger] after[k].alias == a;
        assert(k != i);
        assert(rs[k].alias == a);
        if k < i {
            assert(rs[k].alias != rs[i].alias);
        } else {
            assert(rs[i].alias != rs[k].alias);
        }
    }
}

/// Once the record with alias `a` is deleted, no record has that alias.
pub proof fn lemma_delete_alias_gone(rs: Seq<CommandView>, a: Seq<char>)
    ensures
        !has_alias(without(rs, ListField::Alias, a), a),
{
    let out = without(rs, ListField::Alias, a);
    let pred = |c: CommandView| crate::queries::list_value(c, ListField::Alias) != a;
    if has_alias(out, a) {
        let k = choose|k: int| 0 <= k < out.len() && #[trigger] out[k].alias == a;
        rs.lemma_filter_pred(pred, k);
    }
}

proof fn lemma_filter_keeps_all<A>(s: Seq<A>, pred: spec_fn(A) -> bool)
    requires
        forall|i: int| 0 <= i < s.len() ==> pred(#[trigger] s[i]),
    ensures
        s.filter(pred) == s,
    decreases s.len(),
{
    reveal(Seq::filter);
    if s.len() > 0 {
        let d = s.drop_last();
        assert forall|i: int| 0 <= i < d.len() implies pred(#[trigger] d[i]) by {
            assert(d[i] == s[i]);
        }
        lemma_filter_keeps_all(d, pred);
        assert(s =~= d.push(s.last()));
    }
}

/// Deleting a service leaves no record of it, keeps every record of another
/// service, and changes nothing when no record has it.
pub proof fn lemma_delete_service_exact(rs: Seq<CommandView>, s: Seq<char>)
    ensures
        ({
            let out = without(rs, ListField::Service, s);
            &&& forall|i: int| 0 <= i < out.len() ==> (#[trigger] out[i]).service != s
            &&& forall|i: int| 0 <= i < rs.len() && (#[trigger] rs[i]).service != s ==> out.contains(rs[i])
            &&& (forall|i: int| 0 <= i < rs.len() ==> (#[trigger] rs[i]).service != s) ==> out == rs
        }),
{
    let out = without(rs, ListField::Service, s);
    let pred = |c: CommandView| crate::queries::list_value(c, ListField::Service) != s;
    assert forall|i: int| 0 <= i < out.len() implies (#[trigger] out[i]).service != s by {
        rs.lemma_filter_pred(pred, i);
    }
    assert forall|i: int| 0 <= i < rs.len() && (#[trigger] rs[i]).service != s implies out.contains(rs[i]) by {
        rs.lemma_filter_contains(pred, i);
    }
    if forall|i: int| 0 <= i < rs.len() ==> (#[trigger] rs[i]).service != s {
        assert forall|i: int| 0 <= i < rs.len() implies pred(#[trigger] rs[i]) by {}
        lemma_filter_keeps_all(rs, pred);
    }
}

} // verus!
