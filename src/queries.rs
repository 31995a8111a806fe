use vstd::prelude::*;
use crate::models::{Command, CommandView};

verus! {

/// A unique column whose value clashed with another record.
#[derive(Debug, Clone, Copy, PartialEq, Eq, Structural)]
pub enum UniqueField {
    Command,
    Alias,
}

/// Why a store operation refused to act.
#[derive(Debug, Clone, Copy, PartialEq, Eq, Structural)]
pub enum StoreError {
    /// The alias or command is already held by another record.
    Duplicate(UniqueField),
    /// No record has the given alias.
    NotFound,
    /// Every id up to `i64::MAX` has been handed out.
    IdsExhausted,
}

/// The columns that can be listed on their own.
#[derive(Debug, Clone, Copy, PartialEq, Eq, Structural)]
pub enum ListField {
    Alias,
    Service,
}

/// The columns that can be changed in place, by alias.
#[derive(Debug, Clone, Copy, PartialEq, Eq, Structural)]
pub enum UpdateField {
    Command,
    Info,
    Service,
}

/// The table of command records, in insertion order, together with the
/// largest id handed out so far.
pub struct Store {
    records: Vec<Command>,
    last_id: i64,
}

/// What a `Store` holds, as mathematical values.
pub struct StoreView {
    pub records: Seq<CommandView>,
    pub last_id: int,
}

/// The records of a vector, as values.
pub open spec fn views(v: Seq<Command>) -> Seq<CommandView> {
    v.map_values(|c: Command| c@)
}

/// The strings of a vector, as character sequences.
pub open spec fn string_views(v: Seq<String>) -> Seq<Seq<char>> {
    v.map_values(|s: String| s@)
}

/// Some record has alias `a`.
pub open spec fn has_alias(rs: Seq<CommandView>, a: Seq<char>) -> bool {
    exists|i: int| 0 <= i < rs.len() && #[trigger] rs[i].alias == a
}

/// Some record has command `c`.
pub open spec fn has_command(rs: Seq<CommandView>, c: Seq<char>) -> bool {
    exists|i: int| 0 <= i < rs.len() && #[trigger] rs[i].command == c
}

/// The position of the record with alias `a`.
pub open spec fn alias_pos(rs: Seq<CommandView>, a: Seq<char>) -> int {
    choose|i: int| 0 <= i < rs.len() && #[trigger] rs[i].alias == a
}

/// Whether some record other than the one with alias `a` holds command `c`.
pub open spec fn command_taken_by_other(rs: Seq<CommandView>, a: Seq<char>, c: Seq<char>) -> bool {
    exists|i: int| 0 <= i < rs.len() && #[trigger] rs[i].command == c && rs[i].alias != a
}

/// Aliases and commands are unique, ids strictly increase along the
/// sequence, and none exceeds `last_id`.
pub open spec fn well_formed_records(rs: Seq<CommandView>, last_id: int) -> bool {
    &&& forall|i: int, j: int|
        #![trigger rs[i], rs[j]]
        0 <= i < j < rs.len() ==> {
            &&& rs[i].alias != rs[j].alias
            &&& rs[i].command != rs[j].command
            &&& rs[i].id < rs[j].id
        }
    &&& forall|i: int| 0 <= i < rs.len() ==> #[trigger] rs[i].id <= last_id
    &&& i64::MIN <= last_id <= i64::MAX
}

/// The value of a listable column.
pub open spec fn list_value(c: CommandView, field: ListField) -> Seq<char> {
    match field {
        ListField::Alias => c.alias,
        ListField::Service => c.service,
    }
}

/// The record with one updatable column set to `value`.
pub open spec fn with_field(c: CommandView, field: UpdateField, value: Seq<char>) -> CommandView {
    match field {
        UpdateField::Command => CommandView { command: value, ..c },
        UpdateField::Info => CommandView { info: value, ..c },
        UpdateField::Service => CommandView { service: value, ..c },
    }
}

/// The records that `field` does not equal `key` on.
pub open spec fn without(rs: Seq<CommandView>, field: ListField, key: Seq<char>) -> Seq<CommandView> {
    rs.filter(|c: CommandView| list_value(c, field) != key)
}

/// The refusal, if any, of saving `command` under `alias`.
pub open spec fn insert_error(st: StoreView, command: Seq<char>, alias: Seq<char>) -> Option<StoreError> {
    if has_alias(st.records, alias) {
        Some(StoreError::Duplicate(UniqueField::Alias))
    } else if has_command(st.records, command) {
        Some(StoreError::Duplicate(UniqueField::Command))
    } else if st.last_id == i64::MAX {
        Some(StoreError::IdsExhausted)
    } else {
        None
    }
}

/// The records after a new one is appended under the next id.
pub open spec fn inserted(st: StoreView, command: Seq<char>, alias: Seq<char>, info: Seq<char>, service: Seq<char>) -> Seq<CommandView> {
    st.records.push(CommandView { id: st.last_id + 1, command, alias, info, service })
}

/// The records whose service is `s`, in store order.
pub open spec fn in_service(rs: Seq<CommandView>, s: Seq<char>) -> Seq<CommandView> {
    rs.filter(|c: CommandView| c.service == s)
}

/// The column `field` of every record, in store order.
pub open spec fn column(rs: Seq<CommandView>, field: ListField) -> Seq<Seq<char>> {
    rs.map_values(|c: CommandView| list_value(c, field))
}

/// The refusal, if any, of setting `field` to `value` on the record with alias `a`.
pub open spec fn update_error(rs: Seq<CommandView>, a: Seq<char>, field: UpdateField, value: Seq<char>) -> Option<StoreError> {
    if !has_alias(rs, a) {
        Some(StoreError::NotFound)
    } else if field == UpdateField::Command && command_taken_by_other(rs, a, value) {
        Some(StoreError::Duplicate(UniqueField::Command))
    } else {
        None
    }
}

/// The records after `field` of the record with alias `a` is set to `value`.
pub open spec fn updated(rs: Seq<CommandView>, a: Seq<char>, field: UpdateField, value: Seq<char>) -> Seq<CommandView> {
    let i = alias_pos(rs, a);
    rs.update(i, with_field(rs[i], field, value))
}

/// The refusal, if any, of renaming alias `a` to `b`.
pub open spec fn rename_error(rs: Seq<CommandView>, a: Seq<char>, b: Seq<char>) -> Option<StoreError> {
    if !has_alias(rs, a) {
        Some(StoreError::NotFound)
    } else if a != b && has_alias(rs, b) {
        Some(StoreError::Duplicate(UniqueField::Alias))
    } else {
        None
    }
}

/// The records after the record with alias `a` is renamed to `b`.
pub open spec fn renamed(rs: Seq<CommandView>, a: Seq<char>, b: Seq<char>) -> Seq<CommandView> {
    let i = alias_pos(rs, a);
    rs.update(i, CommandView { alias: b, ..rs[i] })
}

/// The largest id of records read back in id order.
pub open spec fn loaded_last_id(rs: Seq<CommandView>) -> int {
    if rs.len() == 0 {
        0
    } else {
        rs.last().id
    }
}

proof fn lemma_filter_prefix<A>(s: Seq<A>, i: int, pred: spec_fn(A) -> bool)
    requires
        0 <= i < s.len(),
    ensures
        s.subrange(0, i + 1).filter(pred) == if pred(s[i]) {
            s.subrange(0, i).filter(pred).push(s[i])
        } else {
            s.subrange(0, i).filter(pred)
        },
{
    reveal(Seq::filter);
    assert(s.subrange(0, i + 1).drop_last() =~= s.subrange(0, i));
}

impl View for Store {
    type V = StoreView;

    closed spec fn view(&self) -> StoreView {
        StoreView { records: views(self.records@), last_id: self.last_id as int }
    }
}

impl Store {
    /// The store keeps the invariants of its records.
    pub open spec fn wf(&self) -> bool {
        well_formed_records(self@.records, self@.last_id)
    }

    /// An empty store whose first record will get id 1.
    pub fn new() -> (r: Store)
        ensures
            r.wf(),
            r@.records.len() == 0,
            r@.last_id == 0,
    {
        let r = Store { records: Vec::new(), last_id: 0 };
        assert(views(r.records@) =~= Seq::empty());
        r
    }

    /// The position of the record whose alias is `a`, if there is one.
    fn find_alias(&self, a: &String) -> (r: Option<usize>)
        requires
            self.wf(),
        ensures
            r is None <==> !has_alias(self@.records, a@),
            r matches Some(i) ==> i == alias_pos(self@.records, a@) && i < self@.records.len()
                && self@.records[i as int].alias == a@,
    {
        let ghost rs = self@.records;
        let mut i: usize = 0;
        while i < self.records.len()
            invariant
                0 <= i <= self.records@.len(),
                rs == views(self.records@),
                rs == self@.records,
                self.wf(),
                forall|k: int| 0 <= k < i ==> #[trigger] rs[k].alias != a@,
            decreases self.records@.len() - i,
        {
            if self.records[i].alias == *a {
                assert(rs[i as int].alias == a@);
                let ghost p = alias_pos(rs, a@);
                assert(0 <= p < rs.len() && rs[p].alias == a@);
                assert(p == i as int) by {
                    if p != i as int {
                        if p < i as int {
                            assert(rs[p].alias != rs[i as int].alias);
                        } else {
                            assert(rs[i as int].alias != rs[p].alias);
                        }
                    }
                }
                return Some(i);
            }
            i = i + 1;
        }
        None
    }

    /// Whether some record holds command `c`, other than the one at `skip`.
    fn command_used(&self, c: &String, skip: Option<usize>) -> (r: bool)
        ensures
            r <==> exists|i: int|
                0 <= i < self@.records.len() && #[trigger] self@.records[i].command == c@
                    && (skip is None || skip->0 != i),
    {
        let ghost rs = self@.records;
        let mut i: usize = 0;
        while i < self.records.len()
            invariant
                0 <= i <= self.records@.len(),
                rs == views(self.records@),
                rs == self@.records,
                forall|k: int| 0 <= k < i ==> #[trigger] rs[k].command != c@ || (skip is Some && skip->0 == k),
            decreases self.records@.len() - i,
        {
            let skipped = match skip {
                Some(j) => j == i,
                None => false,
            };
            if self.records[i].command == *c && !skipped {
                assert(rs[i as int].command == c@);
                return true;
            }
            i = i + 1;
        }
        false
    }

    /// Keeps only the records whose `field` differs from `key`.
    fn remove_matching(&mut self, field: ListField, key: &String)
        requires
            old(self).wf(),
        ensures
            final(self).wf(),
            final(self)@.records == without(old(self)@.records, field, key@),
            final(self)@.last_id == old(self)@.last_id,
    {
        let ghost rs = self@.records;
        let ghost pred = |c: CommandView| list_value(c, field) != key@;
        let mut kept: Vec<Command> = Vec::new();
        let ghost mut idx: Seq<int> = Seq::empty();
        let mut i: usize = 0;
        while i < self.records.len()
            invariant
                0 <= i <= self.records@.len(),
                rs == views(self.records@),
                rs == self@.records,
                self.wf(),
                pred == (|c: CommandView| list_value(c, field) != key@),
                views(kept@) == rs.subrange(0, i as int).filter(pred),
                idx.len() == kept@.len(),
                forall|k: int| 0 <= k < idx.len() ==> 0 <= #[trigger] idx[k] < i,
                forall|k: int, l: int| 0 <= k < l < idx.len() ==> #[trigger] idx[k] < #[trigger] idx[l],
                forall|k: int| 0 <= k < idx.len() ==> #[trigger] kept@[k]@ == rs[idx[k]],
            decreases self.records@.len() - i,
        {
            proof {
                lemma_filter_prefix(rs, i as int, pred);
            }
            let c = &self.records[i];
            let hit = match field {
                ListField::Alias => c.alias == *key,
                ListField::Service => c.service == *key,
            };
            if !hit {
                kept.push(c.duplicate());
                proof {
                    idx = idx.push(i as int);
                }
                assert(views(kept@) =~= views(kept@).drop_last().push(rs[i as int]));
            }
            i = i + 1;
        }
        assert(rs.subrange(0, i as int) =~= rs);
        let ghost ks = views(kept@);
        assert forall|k: int, l: int|
            #![trigger ks[k], ks[l]]
            0 <= k < l < ks.len() implies {
            &&& ks[k].alias != ks[l].alias
            &&& ks[k].command != ks[l].command
            &&& ks[k].id < ks[l].id
        } by {
            assert(kept@[k]@ == rs[idx[k]] && kept@[l]@ == rs[idx[l]]);
            assert(idx[k] < idx[l]);
        }
        assert forall|k: int| 0 <= k < ks.len() implies #[trigger] ks[k].id <= self.last_id by {
            assert(kept@[k]@ == rs[idx[k]]);
        }
        self.records = kept;
    }
}

/// Reads records back in id order: refused unless aliases and commands are
/// unique and ids strictly increase.
pub fn from_records(rows: Vec<Command>) -> (r: Option<Store>)
    ensures
        r is Some <==> well_formed_records(views(rows@), loaded_last_id(views(rows@))),
        r matches Some(s) ==> s.wf() && s@.records == views(rows@) && s@.last_id == loaded_last_id(views(rows@)),
{
    let ghost rs = views(rows@);
    let n = rows.len();
    let mut i: usize = 0;
    while i < n
        invariant
            n == rows@.len(),
            rs == views(rows@),
            0 <= i <= n,
            forall|a: int, b: int|
                #![trigger rs[a], rs[b]]
                0 <= a < b < i ==> {
                    &&& rs[a].alias != rs[b].alias
                    &&& rs[a].command != rs[b].command
                    &&& rs[a].id < rs[b].id
                },
        decreases n - i,
    {
        if i > 0 && rows[i - 1].id >= rows[i].id {
            assert(rs[i - 1].id >= rs[i as int].id);
            assert(!well_formed_records(rs, loaded_last_id(rs)));
            return None;
        }
        let mut j: usize = 0;
        while j < i
            invariant
                n == rows@.len(),
                rs == views(rows@),
                0 <= j <= i < n,
                forall|a: int| 0 <= a < j ==> (#[trigger] rs[a]).alias != rs[i as int].alias
                    && rs[a].command != rs[i as int].command,
            decreases i - j,
        {
            if rows[j].alias == rows[i].alias || rows[j].command == rows[i].command {
                assert(rs[j as int].alias == rs[i as int].alias || rs[j as int].command == rs[i as int].command);
                assert(!well_formed_records(rs, loaded_last_id(rs)));
                return None;
            }
            assert(rs[j as int].alias != rs[i as int].alias && rs[j as int].command != rs[i as int].command);
            j = j + 1;
        }
        assert forall|a: int, b: int|
            #![trigger rs[a], rs[b]]
            0 <= a < b < i + 1 implies {
            &&& rs[a].alias != rs[b].alias
            &&& rs[a].command != rs[b].command
            &&& rs[a].id < rs[b].id
        } by {
            if b == i && a < i - 1 {
                assert(rs[a].id < rs[i - 1].id);
            }
        }
        i = i + 1;
    }
    let last_id: i64 = if n == 0 { 0 } else { rows[n - 1].id };
    assert forall|k: int| 0 <= k < rs.len() implies #[trigger] rs[k].id <= last_id by {
        if k < n - 1 {
            assert(rs[k].id < rs[n - 1].id);
        }
    }
    let s = Store { records: rows, last_id };
    assert(s@.records == rs);
    Some(s)
}

/// Saves a new record under a fresh id.
pub fn insert_command(store: &mut Store, command: &str, alias: &str, info: &str, service: &str) -> (r: Result<(), StoreError>)
    requires
        old(store).wf(),
    ensures
        final(store).wf(),
        insert_error(old(store)@, command@, alias@) matches Some(e)
            ==> r == Err::<(), StoreError>(e) && final(store)@ == old(store)@,
        insert_error(old(store)@, command@, alias@) is None ==> r is Ok,
        r is Ok ==> final(store)@ == (StoreView {
            records: inserted(old(store)@, command@, alias@, info@, service@),
            last_id: old(store)@.last_id + 1,
        }),
{
    let alias_s = String::from_str(alias);
    let command_s = String::from_str(command);
    if store.find_alias(&alias_s).is_some() {
        return Err(StoreError::Duplicate(UniqueField::Alias));
    }
    if store.command_used(&command_s, None) {
        return Err(StoreError::Duplicate(UniqueField::Command));
    }
    if store.last_id == i64::MAX {
        return Err(StoreError::IdsExhausted);
    }
    let ghost before = store@;
    let id = store.last_id + 1;
    let record = Command {
        id,
        command: command_s,
        alias: alias_s,
        info: String::from_str(info),
        service: String::from_str(service),
    };
    store.records.push(record);
    store.last_id = id;
    assert(views(store.records@) =~= before.records.push(record@));
    Ok(())
}

/// The command text saved under `alias`.
pub fn retrieve_command(store: &Store, alias: &str) -> (r: Result<String, StoreError>)
    requires
        store.wf(),
    ensures
        r is Ok <==> has_alias(store@.records, alias@),
        r matches Ok(t) ==> t@ == store@.records[alias_pos(store@.records, alias@)].command,
        r matches Err(e) ==> e == StoreError::NotFound,
{
    let key = String::from_str(alias);
    match store.find_alias(&key) {
        Some(i) => Ok(store.records[i].command.clone()),
        None => Err(StoreError::NotFound),
    }
}

/// The whole record saved under `alias`.
pub fn retrieve_command_by_alias(store: &Store, alias: &str) -> (r: Result<Command, StoreError>)
    requires
        store.wf(),
    ensures
        r is Ok <==> has_alias(store@.records, alias@),
        r matches Ok(c) ==> c@ == store@.records[alias_pos(store@.records, alias@)],
        r matches Err(e) ==> e == StoreError::NotFound,
{
    let key = String::from_str(alias);
    match store.find_alias(&key) {
        Some(i) => Ok(store.records[i].duplicate()),
        None => Err(StoreError::NotFound),
    }
}

/// Every record, in store order.
pub fn display_commands(store: &Store) -> (r: Vec<Command>)
    ensures
        views(r@) == store@.records,
{
    let ghost rs = store@.records;
    let mut out: Vec<Command> = Vec::new();
    let mut i: usize = 0;
    while i < store.records.len()
        invariant
            0 <= i <= store.records@.len(),
            rs == views(store.records@),
            rs == store@.records,
            views(out@) == rs.subrange(0, i as int),
        decreases store.records@.len() - i,
    {
        out.push(store.records[i].duplicate());
        assert(views(out@) =~= views(out@).drop_last().push(rs[i as int]));
        assert(rs.subrange(0, i as int + 1) =~= rs.subrange(0, i as int).push(rs[i as int]));
        i = i + 1;
    }
    assert(rs.subrange(0, i as int) =~= rs);
    out
}

/// One column of every record, in store order.
pub fn display_by_type(store: &Store, field: ListField) -> (r: Vec<String>)
    ensures
        string_views(r@) == column(store@.records, field),
{
    let ghost rs = store@.records;
    let mut out: Vec<String> = Vec::new();
    let mut i: usize = 0;
    while i < store.records.len()
        invariant
            0 <= i <= store.records@.len(),
            rs == views(store.records@),
            rs == store@.records,
            string_views(out@) == column(rs.subrange(0, i as int), field),
        decreases store.records@.len() - i,
    {
        let c = &store.records[i];
        let v = match field {
            ListField::Alias => c.alias.clone(),
            ListField::Service => c.service.clone(),
        };
        out.push(v);
        assert(string_views(out@) =~= string_views(out@).drop_last().push(list_value(rs[i as int], field)));
        assert(rs.subrange(0, i as int + 1) =~= rs.subrange(0, i as int).push(rs[i as int]));
        assert(column(rs.subrange(0, i as int + 1), field) =~= column(rs.subrange(0, i as int), field).push(list_value(rs[i as int], field)));
        i = i + 1;
    }
    assert(rs.subrange(0, i as int) =~= rs);
    out
}

/// The records of one service, in store order; empty when none has it.
pub fn retrieve_commands_by_service(store: &Store, service: &str) -> (r: Vec<Command>)
    ensures
        views(r@) == in_service(store@.records, service@),
{
    let ghost rs = store@.records;
    let ghost pred = |c: CommandView| c.service == service@;
    let key = String::from_str(service);
    let mut out: Vec<Command> = Vec::new();
    let mut i: usize = 0;
    while i < store.records.len()
        invariant
            0 <= i <= store.records@.len(),
            rs == views(store.records@),
            rs == store@.records,
            key@ == service@,
            pred == (|c: CommandView| c.service == service@),
            views(out@) == rs.subrange(0, i as int).filter(pred),
        decreases store.records@.len() - i,
    {
        proof {
            lemma_filter_prefix(rs, i as int, pred);
        }
        if store.records[i].service == key {
            out.push(store.records[i].duplicate());
            assert(views(out@) =~= views(out@).drop_last().push(rs[i as int]));
        }
        i = i + 1;
    }
    assert(rs.subrange(0, i as int) =~= rs);
    out
}

/// Removes the record saved under `alias`.
pub fn delete_by_alias(store: &mut Store, alias: &str) -> (r: Result<(), StoreError>)
    requires
        old(store).wf(),
    ensures
        final(store).wf(),
        has_alias(old(store)@.records, alias@) ==> r == Ok::<(), StoreError>(()),
        !has_alias(old(store)@.records, alias@) ==> r == Err::<(), StoreError>(StoreError::NotFound)
            && final(store)@ == old(store)@,
        r is Ok ==> final(store)@ == (StoreView {
            records: without(old(store)@.records, ListField::Alias, alias@),
            last_id: old(store)@.last_id,
        }),
{
    let key = String::from_str(alias);
    if store.find_alias(&key).is_none() {
        return Err(StoreError::NotFound);
    }
    store.remove_matching(ListField::Alias, &key);
    Ok(())
}

/// Removes every record of a service; removing none is no error.
pub fn delete_by_service(store: &mut Store, service: &str)
    requires
        old(store).wf(),
    ensures
        final(store).wf(),
        final(store)@ == (StoreView {
            records: without(old(store)@.records, ListField::Service, service@),
            last_id: old(store)@.last_id,
        }),
{
    let key = String::from_str(service);
    store.remove_matching(ListField::Service, &key);
}

/// Sets one field of the record saved under `alias`, leaving the others as
/// they were.
pub fn update_field(store: &mut Store, alias: &str, field: UpdateField, value: &str) -> (r: Result<(), StoreError>)
    requires
        old(store).wf(),
    ensures
        final(store).wf(),
        update_error(old(store)@.records, alias@, field, value@) matches Some(e)
            ==> r == Err::<(), StoreError>(e) && final(store)@ == old(store)@,
        update_error(old(store)@.records, alias@, field, value@) is None ==> r is Ok && final(store)@ == (StoreView {
            records: updated(old(store)@.records, alias@, field, value@),
            last_id: old(store)@.last_id,
        }),
{
    let ghost rs = store@.records;
    let key = String::from_str(alias);
    let new_value = String::from_str(value);
    let i = match store.find_alias(&key) {
        Some(i) => i,
        None => {
            return Err(StoreError::NotFound);
        },
    };
    let taken = match field {
        UpdateField::Command => store.command_used(&new_value, Some(i)),
        _ => false,
    };
    proof {
        if field == UpdateField::Command {
            assert(taken <==> command_taken_by_other(rs, alias@, value@)) by {
                if command_taken_by_other(rs, alias@, value@) {
                    let k = choose|k: int| 0 <= k < rs.len() && #[trigger] rs[k].command == value@ && rs[k].alias != alias@;
                    assert(k != i);
                    assert(store@.records[k].command == new_value@);
                    assert(taken);
                }
                if taken {
                    let k = choose|k: int| 0 <= k < rs.len() && #[trigger] rs[k].command == value@ && k != i;
                    assert(k != i);
                    assert(rs[k].alias != rs[i as int].alias);
                }
            }
        }
    }
    if taken {
        return Err(StoreError::Duplicate(UniqueField::Command));
    }
    let mut c = store.records[i].duplicate();
    match field {
        UpdateField::Command => c.command = new_value,
        UpdateField::Info => c.info = new_value,
        UpdateField::Service => c.service = new_value,
    }
    store.records.set(i, c);
    assert(store@.records =~= updated(rs, alias@, field, value@));
    Ok(())
}

/// Sets the command text of the record saved under `alias`.
pub fn update_command_by_alias(store: &mut Store, alias: &str, value: &str) -> (r: Result<(), StoreError>)
    requires
        old(store).wf(),
    ensures
        final(store).wf(),
        update_error(old(store)@.records, alias@, UpdateField::Command, value@) matches Some(e)
            ==> r == Err::<(), StoreError>(e) && final(store)@ == old(store)@,
        update_error(old(store)@.records, alias@, UpdateField::Command, value@) is None ==> r is Ok && final(store)@ == (StoreView {
            records: updated(old(store)@.records, alias@, UpdateField::Command, value@),
            last_id: old(store)@.last_id,
        }),
{
    update_field(store, alias, UpdateField::Command, value)
}

/// Sets the service of the record saved under `alias`.
pub fn update_service_by_alias(store: &mut Store, alias: &str, value: &str) -> (r: Result<(), StoreError>)
    requires
        old(store).wf(),
    ensures
        final(store).wf(),
        update_error(old(store)@.records, alias@, UpdateField::Service, value@) matches Some(e)
            ==> r == Err::<(), StoreError>(e) && final(store)@ == old(store)@,
        update_error(old(store)@.records, alias@, UpdateField::Service, value@) is None ==> r is Ok && final(store)@ == (StoreView {
            records: updated(old(store)@.records, alias@, UpdateField::Service, value@),
            last_id: old(store)@.last_id,
        }),
{
    update_field(store, alias, UpdateField::Service, value)
}

/// Sets the description of the record saved under `alias`.
pub fn update_info_by_alias(store: &mut Store, alias: &str, value: &str) -> (r: Result<(), StoreError>)
    requires
        old(store).wf(),
    ensures
        final(store).wf(),
        update_error(old(store)@.records, alias@, UpdateField::Info, value@) matches Some(e)
            ==> r == Err::<(), StoreError>(e) && final(store)@ == old(store)@,
        update_error(old(store)@.records, alias@, UpdateField::Info, value@) is None ==> r is Ok && final(store)@ == (StoreView {
            records: updated(old(store)@.records, alias@, UpdateField::Info, value@),
            last_id: old(store)@.last_id,
        }),
{
    update_field(store, alias, UpdateField::Info, value)
}

/// Gives the record saved under `alias` the alias `new_alias`, keeping its id
/// and other fields.
pub fn rename_alias(store: &mut Store, alias: &str, new_alias: &str) -> (r: Result<(), StoreError>)
    requires
        old(store).wf(),
    ensures
        final(store).wf(),
        rename_error(old(store)@.records, alias@, new_alias@) matches Some(e)
            ==> r == Err::<(), StoreError>(e) && final(store)@ == old(store)@,
        rename_error(old(store)@.records, alias@, new_alias@) is None ==> r is Ok && final(store)@ == (StoreView {
            records: renamed(old(store)@.records, alias@, new_alias@),
            last_id: old(store)@.last_id,
        }),
{
    let ghost rs = store@.records;
    let key = String::from_str(alias);
    let new_key = String::from_str(new_alias);
    let i = match store.find_alias(&key) {
        Some(i) => i,
        None => {
            return Err(StoreError::NotFound);
        },
    };
    if !(new_key == key) && store.find_alias(&new_key).is_some() {
        return Err(StoreError::Duplicate(UniqueField::Alias));
    }
    proof {
        if alias@ != new_alias@ {
            assert forall|k: int| 0 <= k < rs.len() implies #[trigger] rs[k].alias != new_alias@ by {
                if rs[k].alias == new_alias@ {
                    assert(has_alias(rs, new_alias@));
                }
            }
        }
    }
    let mut c = store.records[i].duplicate();
    c.alias = new_key;
    store.records.set(i, c);
    assert(store@.records =~= renamed(rs, alias@, new_alias@));
    Ok(())
}

} // verus!
