//! The persistence service, modelled: the collection semantics every
//! operation of the service promises. The collection keeps todos sorted
//! strictly ascending by identifier, reads return the entry with the given
//! identifier, and each write is all-or-nothing, mirroring the
//! majority-acknowledged transaction each database write runs in.
use vstd::prelude::*;
use vstd::pervasive::VecAdditionalExecFns;

use crate::status::Status;
use crate::todo::{StorageError, Todo, TodoView, UpdateTodoStatusRequest, UpdateTodoTextRequest};
use crate::todo_id::{id_key, TodoId};

verus! {

/// The ordering key of a stored entry; every stored entry has an identifier.
pub open spec fn entry_key(t: TodoView) -> int {
    id_key(t.id->0)
}

/// A stored entry is well formed: its identifier is present and holds 12
/// bytes.
pub open spec fn entry_wf(t: TodoView) -> bool {
    t.id is Some && t.id->0.len() == 12
}

/// The collection invariant: entries are well formed and sorted strictly
/// ascending by identifier, so identifiers are unique.
pub open spec fn store_wf(s: Seq<TodoView>) -> bool {
    &&& forall|i: int| 0 <= i < s.len() ==> entry_wf(#[trigger] s[i])
    &&& forall|i: int, j: int|
        0 <= i < j < s.len() ==> entry_key(#[trigger] s[i]) < entry_key(#[trigger] s[j])
}

/// What a read of identifier key `k` returns: the first entry keyed `k`, if
/// any. Under [`store_wf`] there is at most one.
pub open spec fn lookup(s: Seq<TodoView>, k: int) -> Option<TodoView>
    decreases s.len(),
{
    if s.len() == 0 {
        None
    } else if entry_key(s[0]) == k {
        Some(s[0])
    } else {
        lookup(s.drop_first(), k)
    }
}

/// The collection after inserting `e` at its sorted position.
pub open spec fn sorted_insert(s: Seq<TodoView>, e: TodoView) -> Seq<TodoView>
    decreases s.len(),
{
    if s.len() == 0 {
        seq![e]
    } else if entry_key(e) < entry_key(s[0]) {
        seq![e] + s
    } else {
        seq![s[0]] + sorted_insert(s.drop_first(), e)
    }
}

/// The collection after deleting the first entry keyed `k`, if any.
pub open spec fn remove_key(s: Seq<TodoView>, k: int) -> Seq<TodoView>
    decreases s.len(),
{
    if s.len() == 0 {
        s
    } else if entry_key(s[0]) == k {
        s.drop_first()
    } else {
        seq![s[0]] + remove_key(s.drop_first(), k)
    }
}

/// The collection after rewriting the first entry keyed `k`, if any, by `f`.
pub open spec fn update_at(s: Seq<TodoView>, k: int, f: spec_fn(TodoView) -> TodoView) -> Seq<
    TodoView,
>
    decreases s.len(),
{
    if s.len() == 0 {
        s
    } else if entry_key(s[0]) == k {
        seq![f(s[0])] + s.drop_first()
    } else {
        seq![s[0]] + update_at(s.drop_first(), k, f)
    }
}

/// An entry with its text replaced; identifier and status are kept.
pub open spec fn with_text(t: TodoView, text: Seq<char>) -> TodoView {
    TodoView { id: t.id, text: text, status: t.status }
}

/// An entry with its status replaced; identifier and text are kept.
pub open spec fn with_status(t: TodoView, status: Status) -> TodoView {
    TodoView { id: t.id, text: t.text, status: status }
}

/// A read misses exactly when no entry carries the key.
pub proof fn lemma_lookup_none(s: Seq<TodoView>, k: int)
    ensures
        lookup(s, k) is None <==> (forall|i: int| 0 <= i < s.len() ==> entry_key(#[trigger] s[i])
            != k),
    decreases s.len(),
{
    if s.len() > 0 {
        lemma_lookup_none(s.drop_first(), k);
        assert(forall|i: int|
            1 <= i < s.len() ==> #[trigger] s[i] == s.drop_first()[i - 1]);
    }
}

/// A read skips a prefix that does not carry the key.
proof fn lemma_lookup_skip(s: Seq<TodoView>, k: int, n: int)
    requires
        0 <= n <= s.len(),
        forall|i: int| 0 <= i < n ==> entry_key(#[trigger] s[i]) != k,
    ensures
        lookup(s, k) == lookup(s.skip(n), k),
    decreases n,
{
    if n > 0 {
        assert(forall|i: int|
            0 <= i < n - 1 ==> entry_key(#[trigger] s.drop_first()[i]) != k) by {
            assert(forall|i: int|
                0 <= i < n - 1 ==> #[trigger] s.drop_first()[i] == s[i + 1]);
        }
        lemma_lookup_skip(s.drop_first(), k, n - 1);
        assert(s.drop_first().skip(n - 1) =~= s.skip(n));
    } else {
        assert(s.skip(0) =~= s);
    }
}

/// A read finds the first entry that carries the key.
proof fn lemma_lookup_at(s: Seq<TodoView>, k: int, n: int)
    requires
        0 <= n < s.len(),
        forall|i: int| 0 <= i < n ==> entry_key(#[trigger] s[i]) != k,
        entry_key(s[n]) == k,
    ensures
        lookup(s, k) == Some(s[n]),
{
    lemma_lookup_skip(s, k, n);
    assert(s.skip(n)[0] == s[n]);
}

/// Inserting at the position the order dictates is the sorted insertion.
proof fn lemma_insert_at_pos(s: Seq<TodoView>, e: TodoView, pos: int)
    requires
        0 <= pos <= s.len(),
        forall|i: int| 0 <= i < pos ==> entry_key(#[trigger] s[i]) < entry_key(e),
        forall|i: int| pos <= i < s.len() ==> entry_key(e) < entry_key(#[trigger] s[i]),
    ensures
        sorted_insert(s, e) == s.insert(pos, e),
    decreases s.len(),
{
    if s.len() == 0 {
        assert(sorted_insert(s, e) =~= s.insert(pos, e));
    } else if pos == 0 {
        assert(sorted_insert(s, e) =~= s.insert(pos, e));
    } else {
        assert(forall|i: int|
            1 <= i < s.len() ==> #[trigger] s[i] == s.drop_first()[i - 1]);
        lemma_insert_at_pos(s.drop_first(), e, pos - 1);
        assert((seq![s[0]] + s.drop_first().insert(pos - 1, e)) =~= s.insert(pos, e));
    }
}

/// Rewriting the entry at its position is the keyed rewrite.
proof fn lemma_update_at_pos(s: Seq<TodoView>, k: int, f: spec_fn(TodoView) -> TodoView, n: int)
    requires
        0 <= n < s.len(),
        forall|i: int| 0 <= i < n ==> entry_key(#[trigger] s[i]) != k,
        entry_key(s[n]) == k,
    ensures
        update_at(s, k, f) == s.update(n, f(s[n])),
    decreases n,
{
    if n == 0 {
        assert(update_at(s, k, f) =~= s.update(0, f(s[0])));
    } else {
        assert(forall|i: int|
            1 <= i < s.len() ==> #[trigger] s[i] == s.drop_first()[i - 1]);
        lemma_update_at_pos(s.drop_first(), k, f, n - 1);
        assert((seq![s[0]] + s.drop_first().update(n - 1, f(s[n]))) =~= s.update(n, f(s[n])));
    }
}

/// Deleting the entry at its position is the keyed deletion.
proof fn lemma_remove_at_pos(s: Seq<TodoView>, k: int, n: int)
    requires
        0 <= n < s.len(),
        forall|i: int| 0 <= i < n ==> entry_key(#[trigger] s[i]) != k,
        entry_key(s[n]) == k,
    ensures
        remove_key(s, k) == s.remove(n),
    decreases n,
{
    if n == 0 {
        assert(remove_key(s, k) =~= s.remove(0));
    } else {
        assert(forall|i: int|
            1 <= i < s.len() ==> #[trigger] s[i] == s.drop_first()[i - 1]);
        lemma_remove_at_pos(s.drop_first(), k, n - 1);
        assert((seq![s[0]] + s.drop_first().remove(n - 1)) =~= s.remove(n));
    }
}

/// A keyed rewrite misses exactly as a read does: with no entry keyed `k`
/// the collection is unchanged.
pub proof fn lemma_update_at_miss(s: Seq<TodoView>, k: int, f: spec_fn(TodoView) -> TodoView)
    requires
        lookup(s, k) is None,
    ensures
        update_at(s, k, f) == s,
    decreases s.len(),
{
    if s.len() > 0 {
        lemma_update_at_miss(s.drop_first(), k, f);
        assert((seq![s[0]] + s.drop_first()) =~= s);
    }
}

/// A keyed deletion with no entry keyed `k` leaves the collection unchanged.
pub proof fn lemma_remove_key_miss(s: Seq<TodoView>, k: int)
    requires
        lookup(s, k) is None,
    ensures
        remove_key(s, k) == s,
    decreases s.len(),
{
    if s.len() > 0 {
        lemma_remove_key_miss(s.drop_first(), k);
        assert((seq![s[0]] + s.drop_first()) =~= s);
    }
}

/// Law: a created todo is found again. Inserting an entry whose identifier
/// is absent from a well-formed collection and reading that identifier back
/// yields exactly the inserted entry, text and status included.
pub proof fn lemma_create_then_get(s: Seq<TodoView>, e: TodoView)
    requires
        store_wf(s),
        lookup(s, entry_key(e)) is None,
    ensures
        lookup(sorted_insert(s, e), entry_key(e)) == Some(e),
    decreases s.len(),
{
    let k = entry_key(e);
    lemma_lookup_none(s, k);
    if s.len() == 0 {
        assert(sorted_insert(s, e)[0] == e);
    } else if k < entry_key(s[0]) {
        assert(sorted_insert(s, e)[0] == e);
    } else {
        assert(forall|i: int|
            1 <= i < s.len() ==> #[trigger] s[i] == s.drop_first()[i - 1]);
        lemma_lookup_none(s.drop_first(), k);
        lemma_create_then_get(s.drop_first(), e);
        let r = seq![s[0]] + sorted_insert(s.drop_first(), e);
        assert(r[0] == s[0]);
        assert(r.drop_first() =~= sorted_insert(s.drop_first(), e));
    }
}

/// Law: deletion is idempotent. After the entry keyed `k` is deleted from a
/// well-formed collection, a second deletion (and any read) of `k` finds
/// nothing.
pub proof fn lemma_remove_idempotent(s: Seq<TodoView>, k: int)
    requires
        store_wf(s),
    ensures
        lookup(remove_key(s, k), k) is None,
        remove_key(remove_key(s, k), k) == remove_key(s, k),
    decreases s.len(),
{
    if s.len() > 0 {
        assert(forall|i: int|
            1 <= i < s.len() ==> #[trigger] s[i] == s.drop_first()[i - 1]);
        if entry_key(s[0]) == k {
            assert(forall|i: int|
                0 <= i < s.drop_first().len() ==> entry_key(#[trigger] s.drop_first()[i]) > k);
            lemma_lookup_none(s.drop_first(), k);
        } else {
            lemma_remove_idempotent(s.drop_first(), k);
            let r = seq![s[0]] + remove_key(s.drop_first(), k);
            assert(r[0] == s[0]);
            assert(r.drop_first() =~= remove_key(s.drop_first(), k));
        }
    }
    lemma_remove_key_miss(remove_key(s, k), k);
}

/// Law: insertion keeps the collection sorted. Inserting an entry whose
/// identifier is absent preserves the collection invariant, whatever order
/// entries arrived in; reads of the collection therefore always list todos
/// ascending by identifier.
pub proof fn lemma_sorted_insert_wf(s: Seq<TodoView>, e: TodoView)
    requires
        store_wf(s),
        entry_wf(e),
        lookup(s, entry_key(e)) is None,
    ensures
        store_wf(sorted_insert(s, e)),
    decreases s.len(),
{
    let k = entry_key(e);
    lemma_lookup_none(s, k);
    if s.len() == 0 {
    } else if k < entry_key(s[0]) {
        let r = seq![e] + s;
        assert(forall|i: int| 1 <= i < r.len() ==> #[trigger] r[i] == s[i - 1]);
    } else {
        assert(forall|i: int|
            1 <= i < s.len() ==> #[trigger] s[i] == s.drop_first()[i - 1]);
        lemma_lookup_none(s.drop_first(), k);
        lemma_sorted_insert_wf(s.drop_first(), e);
        lemma_sorted_insert_members(s.drop_first(), e);
        let t = sorted_insert(s.drop_first(), e);
        let r = seq![s[0]] + t;
        assert(forall|i: int| 1 <= i < r.len() ==> #[trigger] r[i] == t[i - 1]);
        assert(forall|i: int|
            0 <= i < t.len() ==> entry_key(s[0]) < entry_key(#[trigger] t[i]));
    }
}

/// Every entry of a sorted insertion is the inserted entry or one of the
/// collection's own, and exactly one entry was added.
proof fn lemma_sorted_insert_members(s: Seq<TodoView>, e: TodoView)
    ensures
        sorted_insert(s, e).len() == s.len() + 1,
        forall|i: int|
            0 <= i < sorted_insert(s, e).len() ==> (sorted_insert(s, e)[i] == e || s.contains(
                #[trigger] sorted_insert(s, e)[i],
            )),
    decreases s.len(),
{
    if s.len() == 0 {
    } else if entry_key(e) < entry_key(s[0]) {
        let r = seq![e] + s;
        assert(forall|i: int| 1 <= i < r.len() ==> s.contains(#[trigger] r[i])) by {
            assert(forall|i: int| 1 <= i < r.len() ==> #[trigger] r[i] == s[i - 1]);
        }
    } else {
        lemma_sorted_insert_members(s.drop_first(), e);
        let t = sorted_insert(s.drop_first(), e);
        let r = seq![s[0]] + t;
        assert(forall|i: int| 1 <= i < r.len() ==> #[trigger] r[i] == t[i - 1]);
        assert(forall|x: TodoView| s.drop_first().contains(x) ==> s.contains(x)) by {
            assert(forall|i: int|
                0 <= i < s.drop_first().len() ==> #[trigger] s.drop_first()[i] == s[i + 1]);
        }
        assert(s.contains(r[0]));
    }
}

/// The persistence service, as the collection it keeps: a set of todos,
/// each under a unique server-assigned identifier, listed ascending by
/// identifier.
pub struct TodoService {
    todos: Vec<Todo>,
}

impl View for TodoService {
    type V = Seq<TodoView>;

    closed spec fn view(&self) -> Seq<TodoView> {
        self.todos@.map_values(|t: Todo| t@)
    }
}

impl Default for TodoService {
    /// A fresh service holds no todos.
    fn default() -> (s: Self)
        ensures
            s@ == Seq::<TodoView>::empty(),
            s.wf(),
    {
        let s = TodoService { todos: Vec::new() };
        proof {
            assert(s@ =~= Seq::<TodoView>::empty());
        }
        s
    }
}

impl TodoService {
    /// The collection invariant; every operation preserves it.
    pub open spec fn wf(&self) -> bool {
        store_wf(self@)
    }

    /// The ordering key of one stored entry.
    fn entry_todo_key(t: &Todo) -> (k: u128)
        requires
            entry_wf(t@),
        ensures
            k == entry_key(t@),
    {
        match &t.id {
            Some(id) => id.key(),
            None => vstd::pervasive::unreached(),
        }
    }

    /// The index of the entry keyed `k`, if any.
    fn find_index(&self, k: u128) -> (r: Option<usize>)
        requires
            self.wf(),
        ensures
            r matches Some(i) ==> i < self@.len() && lookup(self@, k as int) == Some(self@[i as int])
                && entry_key(self@[i as int]) == k as int,
            r is None ==> lookup(self@, k as int) is None,
    {
        let n = self.todos.len();
        let mut j: usize = 0;
        while j < n
            invariant
                self.wf(),
                n == self@.len(),
                0 <= j <= n,
                forall|i: int| 0 <= i < j ==> entry_key(#[trigger] self@[i]) != k as int,
            decreases n - j,
        {
            proof {
                assert(entry_wf(self@[j as int]));
            }
            if Self::entry_todo_key(&self.todos[j]) == k {
                proof {
                    lemma_lookup_at(self@, k as int, j as int);
                }
                return Some(j);
            }
            j = j + 1;
        }
        proof {
            lemma_lookup_skip(self@, k as int, n as int);
            assert(self@.skip(n as int) =~= Seq::<TodoView>::empty());
        }
        None
    }

    /// The position a fresh entry keyed `k` belongs at: after every smaller
    /// key and before every greater one.
    fn insert_position(&self, k: u128) -> (pos: usize)
        requires
            self.wf(),
            forall|i: int| 0 <= i < self@.len() ==> entry_key(#[trigger] self@[i]) != k as int,
        ensures
            pos <= self@.len(),
            forall|i: int| 0 <= i < pos ==> entry_key(#[trigger] self@[i]) < k as int,
            forall|i: int| pos <= i < self@.len() ==> (k as int) < entry_key(#[trigger] self@[i]),
    {
        let n = self.todos.len();
        let mut pos: usize = 0;
        while pos < n
            invariant
                self.wf(),
                n == self@.len(),
                0 <= pos <= n,
                forall|i: int| 0 <= i < self@.len() ==> entry_key(#[trigger] self@[i]) != k as int,
                forall|i: int| 0 <= i < pos ==> entry_key(#[trigger] self@[i]) < k as int,
            decreases n - pos,
        {
            proof {
                assert(entry_wf(self@[pos as int]));
            }
            if k < Self::entry_todo_key(&self.todos[pos]) {
                proof {
                    assert(forall|i: int|
                        pos < i < self@.len() ==> entry_key(self@[pos as int]) < entry_key(
                            #[trigger] self@[i],
                        ));
                }
                return pos;
            }
            pos = pos + 1;
        }
        pos
    }

    /// List every todo, sorted ascending by identifier — in whatever order
    /// they were created.
    pub fn find(&self) -> (r: Vec<Todo>)
        requires
            self.wf(),
        ensures
            r@.map_values(|t: Todo| t@) == self@,
            forall|i: int, j: int|
                0 <= i < j < r@.len() ==> entry_key(r@[i]@) < entry_key(r@[j]@),
    {
        let n = self.todos.len();
        let mut out: Vec<Todo> = Vec::new();
        let mut j: usize = 0;
        while j < n
            invariant
                self.wf(),
                n == self@.len(),
                0 <= j <= n,
                out@.len() == j,
                forall|i: int| 0 <= i < j ==> (#[trigger] out@[i])@ == self@[i],
            decreases n - j,
        {
            out.push(self.todos[j].clone());
            j = j + 1;
        }
        proof {
            assert(forall|i: int, j2: int|
                0 <= i < j2 < out@.len() ==> entry_key(out@[i]@) < entry_key(out@[j2]@)) by {
                assert(forall|i: int| 0 <= i < out@.len() ==> (#[trigger] out@[i])@ == self@[i]);
            }
            assert(out@.map_values(|t: Todo| t@) =~= self@);
        }
        out
    }

    /// Read one todo by identifier; absent identifiers read as `None`.
    pub fn get(&self, id: TodoId) -> (r: Option<Todo>)
        requires
            self.wf(),
            id.wf(),
        ensures
            r matches Some(t) ==> lookup(self@, id_key(id@)) == Some(t@),
            r is None ==> lookup(self@, id_key(id@)) is None,
    {
        match self.find_index(id.key()) {
            Some(i) => Some(self.todos[i].clone()),
            None => None,
        }
    }

    /// Insert a todo under the given fresh identifier; any identifier the
    /// input todo carried is discarded. Returns the stored todo, which
    /// carries the assigned identifier, or a [`StorageError`] exactly when
    /// the identifier is already taken.
    pub fn create(&mut self, todo: Todo, id: TodoId) -> (r: Result<Todo, StorageError>)
        requires
            old(self).wf(),
            id.wf(),
        ensures
            final(self).wf(),
            r is Ok <==> lookup(old(self)@, id_key(id@)) is None,
            r matches Ok(t) ==> t@ == (TodoView {
                id: Some(id@),
                text: todo.text@,
                status: todo.status,
            }) && final(self)@ == sorted_insert(old(self)@, t@),
            r is Err ==> final(self)@ == old(self)@,
    {
        let k = id.key();
        match self.find_index(k) {
            Some(_) => Err(StorageError {}),
            None => {
                proof {
                    lemma_lookup_none(self@, k as int);
                }
                let pos = self.insert_position(k);
                let stored = Todo { id: Some(id), text: todo.text, status: todo.status };
                let returned = stored.clone();
                let ghost old_view = self@;
                let ghost e = stored@;
                self.todos.insert(pos, stored);
                proof {
                    assert(self@ =~= old_view.insert(pos as int, e));
                    lemma_insert_at_pos(old_view, e, pos as int);
                    assert(forall|i: int|
                        0 <= i < self@.len() ==> entry_wf(#[trigger] self@[i]) && #[trigger] self@[i]
                            == old_view.insert(pos as int, e)[i]);
                    assert(forall|i: int, j: int|
                        0 <= i < j < self@.len() ==> entry_key(#[trigger] self@[i]) < entry_key(
                            #[trigger] self@[j],
                        )) by {
                        assert(forall|i: int|
                            0 <= i < pos ==> entry_key(#[trigger] self@[i]) == entry_key(
                                old_view[i],
                            ) && entry_key(old_view[i]) < k as int);
                    }
                }
                Ok(returned)
            },
        }
    }

    /// Rewrite a todo's text by identifier and return the rewritten todo,
    /// or `None` — with the collection unchanged — when no todo carries the
    /// identifier.
    pub fn update_text(&mut self, todo_id: TodoId, req: UpdateTodoTextRequest) -> (r: Option<
        Todo,
    >)
        requires
            old(self).wf(),
            todo_id.wf(),
        ensures
            final(self).wf(),
            final(self)@ == update_at(
                old(self)@,
                id_key(todo_id@),
                |t: TodoView| with_text(t, req.text@),
            ),
            r matches Some(t) ==> (lookup(old(self)@, id_key(todo_id@)) matches Some(e) && t@
                == with_text(e, req.text@)),
            r is None ==> lookup(old(self)@, id_key(todo_id@)) is None,
    {
        let ghost f = |t: TodoView| with_text(t, req.text@);
        let k = todo_id.key();
        match self.find_index(k) {
            None => {
                proof {
                    lemma_update_at_miss(self@, k as int, f);
                }
                None
            },
            Some(i) => {
                let ghost old_view = self@;
                let current = &self.todos[i];
                let updated = Todo {
                    id: match &current.id {
                        Some(cid) => Some(cid.clone()),
                        None => None,
                    },
                    text: req.text,
                    status: current.status,
                };
                let returned = updated.clone();
                proof {
                    first_match_index(old_view, k as int, i as int);
                }
                self.todos.set(i, updated);
                proof {
                    assert(self@ =~= old_view.update(i as int, f(old_view[i as int])));
                    lemma_update_at_pos(old_view, k as int, f, i as int);
                    assert(store_wf(self@)) by {
                        assert(forall|j: int|
                            0 <= j < self@.len() && j != i ==> #[trigger] self@[j] == old_view[j]);
                        assert(entry_key(self@[i as int]) == entry_key(old_view[i as int]));
                        assert(entry_wf(self@[i as int]));
                    }
                }
                Some(returned)
            },
        }
    }

    /// Rewrite a todo's status by identifier and return the rewritten todo,
    /// or `None` — with the collection unchanged — when no todo carries the
    /// identifier.
    pub fn update_status(&mut self, todo_id: TodoId, req: UpdateTodoStatusRequest) -> (r: Option<
        Todo,
    >)
        requires
            old(self).wf(),
            todo_id.wf(),
        ensures
            final(self).wf(),
            final(self)@ == update_at(
                old(self)@,
                id_key(todo_id@),
                |t: TodoView| with_status(t, req.status),
            ),
            r matches Some(t) ==> (lookup(old(self)@, id_key(todo_id@)) matches Some(e) && t@
                == with_status(e, req.status)),
            r is None ==> lookup(old(self)@, id_key(todo_id@)) is None,
    {
        let ghost f = |t: TodoView| with_status(t, req.status);
        let k = todo_id.key();
        match self.find_index(k) {
            None => {
                proof {
                    lemma_update_at_miss(self@, k as int, f);
                }
                None
            },
            Some(i) => {
                let ghost old_view = self@;
                let current = &self.todos[i];
                let updated = Todo {
                    id: match &current.id {
                        Some(cid) => Some(cid.clone()),
                        None => None,
                    },
                    text: current.text.clone(),
                    status: req.status,
                };
                let returned = updated.clone();
                proof {
                    first_match_index(old_view, k as int, i as int);
                }
                self.todos.set(i, updated);
                proof {
                    assert(self@ =~= old_view.update(i as int, f(old_view[i as int])));
                    lemma_update_at_pos(old_view, k as int, f, i as int);
                    assert(store_wf(self@)) by {
                        assert(forall|j: int|
                            0 <= j < self@.len() && j != i ==> #[trigger] self@[j] == old_view[j]);
                        assert(entry_key(self@[i as int]) == entry_key(old_view[i as int]));
                        assert(entry_wf(self@[i as int]));
                    }
                }
                Some(returned)
            },
        }
    }

    /// Delete a todo by identifier and return it, or `None` — with the
    /// collection unchanged — when no todo carries the identifier.
    pub fn remove(&mut self, todo_id: TodoId) -> (r: Option<Todo>)
        requires
            old(self).wf(),
            todo_id.wf(),
        ensures
            final(self).wf(),
            final(self)@ == remove_key(old(self)@, id_key(todo_id@)),
            r matches Some(t) ==> lookup(old(self)@, id_key(todo_id@)) == Some(t@),
            r is None ==> lookup(old(self)@, id_key(todo_id@)) is None,
    {
        let k = todo_id.key();
        match self.find_index(k) {
            None => {
                proof {
                    lemma_remove_key_miss(self@, k as int);
                }
                None
            },
            Some(i) => {
                let ghost old_view = self@;
                let removed = self.todos.remove(i);
                proof {
                    first_match_index(old_view, k as int, i as int);
                    assert(self@ =~= old_view.remove(i as int));
                    lemma_remove_at_pos(old_view, k as int, i as int);
                    assert(store_wf(self@)) by {
                        assert(forall|j: int|
                            0 <= j < self@.len() ==> #[trigger] self@[j] == if j < i {
                                old_view[j]
                            } else {
                                old_view[j + 1]
                            });
                    }
                }
                Some(removed)
            },
        }
    }
}

/// Under the invariant, no index before an entry carries that entry's key.
proof fn first_match_index(s: Seq<TodoView>, k: int, i: int)
    requires
        store_wf(s),
        0 <= i < s.len(),
        entry_key(s[i]) == k,
    ensures
        forall|j: int| 0 <= j < i ==> entry_key(#[trigger] s[j]) != k,
{
    assert(forall|j: int| 0 <= j < i ==> entry_key(#[trigger] s[j]) < entry_key(s[i]));
}

} // verus!
