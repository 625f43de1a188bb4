//! A model of the runtime instance that owns every handle-backed object.
//!
//! Each instance carries an identifying token; every handle records the
//! token of the instance that created it, and every operation entry point
//! demands that they match, so that a handle can never be used against a
//! foreign instance.  Runtime-owned objects live in a registry indexed by
//! the handle; a registered behavior set (an optional equality override and
//! an optional stringify override) models the metamethod hooks that
//! equality and stringification may dispatch to.

use vstd::prelude::*;
use crate::value::{Value, LuaString, Table, Function, Thread, AnyUserData, value_wf};
use crate::multi::MultiValue;

verus! {

/// The registered behavior of an equality override: what invoking the hook
/// yields, either an answer or a raised error.
pub enum EqHook {
    /// The hook returns this answer.
    Returns(bool),
    /// The hook raises an error with this message.
    Raises(String),
}

/// What kind of object a registry slot holds.
pub enum ObjKind {
    /// An interned byte string, not necessarily valid text.
    Str(Vec<u8>),
    /// An associative container of key-value entries.
    Table(Vec<(Value, Value)>),
    /// A callable.
    Function,
    /// A suspendable execution context.
    Thread,
    /// A host-defined opaque object, with its registered type name.
    UserData(Option<String>),
}

/// A runtime-owned object: its kind and its registered behavior set.
pub struct Obj {
    /// What the object is.
    pub kind: ObjKind,
    /// The registered equality override, if any.
    pub eq_hook: Option<EqHook>,
    /// The registered stringify override: the bytes it yields, if any.
    pub tostring_hook: Option<Vec<u8>>,
}

/// Whether the entries of one registry slot only hold well-formed values.
pub open spec fn obj_wf(o: Obj, id: u64, objs: Seq<Obj>) -> bool {
    match o.kind {
        ObjKind::Table(entries) => forall|j: int|
            0 <= j < entries@.len() ==> value_wf(#[trigger] entries@[j].0, id, objs) && value_wf(
                entries@[j].1,
                id,
                objs,
            ),
        _ => true,
    }
}

/// A runtime instance: the owner of the object registry and of the reuse
/// pool for multi-value containers.
pub struct Lua {
    /// Token identifying this instance; handles carry it.
    pub id: u64,
    /// The object registry; a handle's index points into it.
    pub objects: Vec<Obj>,
    /// Cleared containers kept for reuse.
    pub pool: Vec<MultiValue>,
}

impl Lua {
    /// The instance invariant: every table entry is well formed against this
    /// instance, interned strings are unique, and pooled containers are
    /// empty.
    pub open spec fn wf(&self) -> bool {
        &&& forall|i: int|
            0 <= i < self.objects@.len() ==> obj_wf(
                #[trigger] self.objects@[i],
                self.id,
                self.objects@,
            )
        &&& forall|i: int, j: int|
            0 <= i < j < self.objects@.len() && self.objects@[i].kind is Str
                && self.objects@[j].kind is Str ==> (#[trigger] self.objects@[i].kind->Str_0)@ != (
            #[trigger] self.objects@[j].kind->Str_0)@
        &&& forall|i: int| 0 <= i < self.pool@.len() ==> (#[trigger] self.pool@[i])@.len() == 0
    }

    /// The bytes of an interned string slot.
    pub open spec fn str_bytes(&self, h: LuaString) -> Seq<u8> {
        self.objects@[h.index as int].kind->Str_0@
    }

    /// The entries of a table slot.
    pub open spec fn table_entries(&self, index: int) -> Seq<(Value, Value)> {
        self.objects@[index].kind->Table_0@
    }

    /// Creates a fresh instance with the given identifying token.
    pub fn new(id: u64) -> (r: Lua)
        ensures
            r.wf(),
            r.id == id,
            r.objects@.len() == 0,
            r.pool@.len() == 0,
    {
        Lua { id, objects: Vec::new(), pool: Vec::new() }
    }

    /// Creates an interned string holding the given bytes.  If the bytes are
    /// already interned, the existing handle is returned; otherwise a new
    /// slot is appended.
    pub fn create_string(&mut self, bytes: Vec<u8>) -> (h: LuaString)
        requires
            old(self).wf(),
        ensures
            final(self).wf(),
            final(self).id == old(self).id,
            final(self).pool == old(self).pool,
            h.instance == old(self).id,
            h.index < final(self).objects@.len(),
            final(self).objects@[h.index as int].kind is Str,
            final(self).str_bytes(h) == bytes@,
            old(self).objects@.len() <= final(self).objects@.len(),
            forall|i: int|
                0 <= i < old(self).objects@.len() ==> final(self).objects@[i] == old(self).objects@[i],
    {
        let n = self.objects.len();
        let mut i: usize = 0;
        while i < n
            invariant
                *self == *old(self),
                self.wf(),
                n == self.objects@.len(),
                0 <= i <= n,
                forall|k: int|
                    0 <= k < i ==> ((#[trigger] self.objects@[k].kind) is Str
                        ==> self.objects@[k].kind->Str_0@ != bytes@),
            decreases n - i,
        {
            let found = match &self.objects[i].kind {
                ObjKind::Str(existing) => bytes_equal(existing, &bytes),
                _ => false,
            };
            if found {
                return LuaString { instance: self.id, index: i };
            }
            i += 1;
        }
        let idx = self.objects.len();
        self.objects.push(Obj { kind: ObjKind::Str(bytes), eq_hook: Option::None, tostring_hook: Option::None });
        proof {
            let before = old(self).objects@;
            let after = self.objects@;
            lemma_registry_grow(before, after, old(self).id);
            assert forall|a: int, b: int|
                0 <= a < b < after.len() && after[a].kind is Str && after[b].kind
                    is Str implies after[a].kind->Str_0@ != after[b].kind->Str_0@ by {
                if b == before.len() {
                    assert(after[a] == before[a]);
                } else {
                    assert(after[a] == before[a] && after[b] == before[b]);
                }
            }
        }
        LuaString { instance: self.id, index: idx }
    }

    /// Creates an empty table and returns its handle.
    pub fn create_table(&mut self) -> (h: Table)
        requires
            old(self).wf(),
        ensures
            final(self).wf(),
            final(self).id == old(self).id,
            final(self).pool == old(self).pool,
            h.instance == old(self).id,
            h.index == old(self).objects@.len(),
            final(self).objects@.len() == old(self).objects@.len() + 1,
            final(self).objects@[h.index as int].kind is Table,
            final(self).table_entries(h.index as int).len() == 0,
            final(self).objects@[h.index as int].eq_hook is None,
            final(self).objects@[h.index as int].tostring_hook is None,
            forall|i: int|
                0 <= i < old(self).objects@.len() ==> final(self).objects@[i] == old(self).objects@[i],
    {
        let idx = self.objects.len();
        self.objects.push(Obj { kind: ObjKind::Table(Vec::new()), eq_hook: Option::None, tostring_hook: Option::None });
        proof {
            lemma_registry_grow(old(self).objects@, self.objects@, old(self).id);
        }
        Table { instance: self.id, index: idx }
    }

    /// Creates a callable and returns its handle.
    pub fn create_function(&mut self) -> (h: Function)
        requires
            old(self).wf(),
        ensures
            final(self).wf(),
            final(self).id == old(self).id,
            final(self).pool == old(self).pool,
            h.instance == old(self).id,
            h.index == old(self).objects@.len(),
            final(self).objects@.len() == old(self).objects@.len() + 1,
            final(self).objects@[h.index as int].kind is Function,
            final(self).objects@[h.index as int].tostring_hook is None,
            forall|i: int|
                0 <= i < old(self).objects@.len() ==> final(self).objects@[i] == old(self).objects@[i],
    {
        let idx = self.objects.len();
        self.objects.push(Obj { kind: ObjKind::Function, eq_hook: Option::None, tostring_hook: Option::None });
        proof {
            lemma_registry_grow(old(self).objects@, self.objects@, old(self).id);
        }
        Function { instance: self.id, index: idx }
    }

    /// Creates a suspendable execution context and returns its handle.
    pub fn create_thread(&mut self) -> (h: Thread)
        requires
            old(self).wf(),
        ensures
            final(self).wf(),
            final(self).id == old(self).id,
            final(self).pool == old(self).pool,
            h.instance == old(self).id,
            h.index == old(self).objects@.len(),
            final(self).objects@.len() == old(self).objects@.len() + 1,
            final(self).objects@[h.index as int].kind is Thread,
            final(self).objects@[h.index as int].tostring_hook is None,
            forall|i: int|
                0 <= i < old(self).objects@.len() ==> final(self).objects@[i] == old(self).objects@[i],
    {
        let idx = self.objects.len();
        self.objects.push(Obj { kind: ObjKind::Thread, eq_hook: Option::None, tostring_hook: Option::None });
        proof {
            lemma_registry_grow(old(self).objects@, self.objects@, old(self).id);
        }
        Thread { instance: self.id, index: idx }
    }

    /// Creates a host-defined opaque object and returns its handle.
    pub fn create_userdata(&mut self, variant_name: Option<String>) -> (h: AnyUserData)
        requires
            old(self).wf(),
        ensures
            final(self).wf(),
            final(self).id == old(self).id,
            final(self).pool == old(self).pool,
            h.instance == old(self).id,
            h.index == old(self).objects@.len(),
            final(self).objects@.len() == old(self).objects@.len() + 1,
            final(self).objects@[h.index as int].kind is UserData,
            final(self).objects@[h.index as int].kind->UserData_0 == variant_name,
            final(self).objects@[h.index as int].eq_hook is None,
            final(self).objects@[h.index as int].tostring_hook is None,
            forall|i: int|
                0 <= i < old(self).objects@.len() ==> final(self).objects@[i] == old(self).objects@[i],
    {
        let idx = self.objects.len();
        self.objects.push(Obj { kind: ObjKind::UserData(variant_name), eq_hook: Option::None, tostring_hook: Option::None });
        proof {
            lemma_registry_grow(old(self).objects@, self.objects@, old(self).id);
        }
        AnyUserData { instance: self.id, index: idx }
    }

    /// Appends a key-value entry to a table.
    pub fn table_insert(&mut self, t: &Table, key: Value, val: Value)
        requires
            old(self).wf(),
            t.instance == old(self).id,
            t.index < old(self).objects@.len(),
            old(self).objects@[t.index as int].kind is Table,
            value_wf(key, old(self).id, old(self).objects@),
            value_wf(val, old(self).id, old(self).objects@),
        ensures
            final(self).wf(),
            final(self).id == old(self).id,
            final(self).pool == old(self).pool,
            final(self).objects@.len() == old(self).objects@.len(),
            final(self).objects@[t.index as int].kind is Table,
            final(self).table_entries(t.index as int) == old(self).table_entries(
                t.index as int,
            ).push((key, val)),
            final(self).objects@[t.index as int].eq_hook == old(self).objects@[t.index
                as int].eq_hook,
            final(self).objects@[t.index as int].tostring_hook == old(self).objects@[t.index
                as int].tostring_hook,
            forall|i: int|
                0 <= i < old(self).objects@.len() && i != t.index ==> final(self).objects@[i]
                    == old(self).objects@[i],
    {
        let idx = t.index;
        let o = self.objects.remove(idx);
        let (mut entries, eq_hook, tostring_hook) = match o {
            Obj { kind: ObjKind::Table(entries), eq_hook, tostring_hook } => (
                entries,
                eq_hook,
                tostring_hook,
            ),
            _ => {
                proof {
                    assert(false);
                }
                (Vec::new(), Option::None, Option::None)
            },
        };
        entries.push((key, val));
        self.objects.insert(idx, Obj { kind: ObjKind::Table(entries), eq_hook, tostring_hook });
        proof {
            assert(self.objects@ =~= old(self).objects@.update(
                idx as int,
                self.objects@[idx as int],
            ));
            lemma_registry_update(old(self).objects@, self.objects@, old(self).id, idx as int);
        }
    }

    /// Registers an equality override for a table or a host object.
    pub fn set_equals_hook(&mut self, v: &Value, hook: EqHook)
        requires
            old(self).wf(),
            value_wf(*v, old(self).id, old(self).objects@),
            v is Table || v is UserData,
        ensures
            final(self).wf(),
            final(self).id == old(self).id,
            final(self).pool == old(self).pool,
            final(self).objects@.len() == old(self).objects@.len(),
            final(self).objects@[crate::value::handle_index(*v)].eq_hook == Option::Some(hook),
            final(self).objects@[crate::value::handle_index(*v)].kind == old(self).objects@[crate::value::handle_index(*v)].kind,
            final(self).objects@[crate::value::handle_index(*v)].tostring_hook == old(self).objects@[crate::value::handle_index(*v)].tostring_hook,
            forall|i: int|
                0 <= i < old(self).objects@.len() && i != crate::value::handle_index(*v) ==> final(self).objects@[i] == old(self).objects@[i],
    {
        let idx = match v {
            Value::Table(t) => t.index,
            Value::UserData(u) => u.index,
            _ => {
                proof {
                    assert(false);
                }
                0
            },
        };
        let o = self.objects.remove(idx);
        self.objects.insert(idx, Obj { kind: o.kind, eq_hook: Option::Some(hook), tostring_hook: o.tostring_hook });
        proof {
            assert(self.objects@ =~= old(self).objects@.update(
                idx as int,
                self.objects@[idx as int],
            ));
            lemma_registry_update(old(self).objects@, self.objects@, old(self).id, idx as int);
        }
    }

    /// Registers a stringify override for a handle-backed value: the bytes
    /// the override yields.
    pub fn set_tostring_hook(&mut self, v: &Value, bytes: Vec<u8>)
        requires
            old(self).wf(),
            value_wf(*v, old(self).id, old(self).objects@),
            v is Table || v is UserData || v is Function || v is Thread,
        ensures
            final(self).wf(),
            final(self).id == old(self).id,
            final(self).pool == old(self).pool,
            final(self).objects@.len() == old(self).objects@.len(),
            final(self).objects@[crate::value::handle_index(*v)].tostring_hook == Option::Some(
                bytes,
            ),
            final(self).objects@[crate::value::handle_index(*v)].kind == old(self).objects@[crate::value::handle_index(*v)].kind,
            final(self).objects@[crate::value::handle_index(*v)].eq_hook == old(self).objects@[crate::value::handle_index(*v)].eq_hook,
            forall|i: int|
                0 <= i < old(self).objects@.len() && i != crate::value::handle_index(*v) ==> final(self).objects@[i] == old(self).objects@[i],
    {
        let idx = match v {
            Value::Table(t) => t.index,
            Value::UserData(u) => u.index,
            Value::Function(f) => f.index,
            Value::Thread(t) => t.index,
            _ => {
                proof {
                    assert(false);
                }
                0
            },
        };
        let o = self.objects.remove(idx);
        self.objects.insert(idx, Obj { kind: o.kind, eq_hook: o.eq_hook, tostring_hook: Option::Some(bytes) });
        proof {
            assert(self.objects@ =~= old(self).objects@.update(
                idx as int,
                self.objects@[idx as int],
            ));
            lemma_registry_update(old(self).objects@, self.objects@, old(self).id, idx as int);
        }
    }

    /// Checks the instance invariant at runtime, for callers outside the
    /// verifier: verified callers carry `wf` as a precondition, while
    /// unverified code that may have altered the public fields can test the
    /// invariant before trusting the instance.
    pub fn check_wf(&self) -> (r: bool)
        ensures
            r == self.wf(),
    {
        let n = self.objects.len();
        let mut i: usize = 0;
        while i < n
            invariant
                n == self.objects@.len(),
                0 <= i <= n,
                forall|k: int|
                    0 <= k < i ==> obj_wf(#[trigger] self.objects@[k], self.id, self.objects@),
            decreases n - i,
        {
            match &self.objects[i].kind {
                ObjKind::Table(entries) => {
                    let en = entries.len();
                    let mut j: usize = 0;
                    while j < en
                        invariant
                            n == self.objects@.len(),
                            i < n,
                            self.objects@[i as int].kind is Table,
                            entries@ == self.objects@[i as int].kind->Table_0@,
                            en == entries@.len(),
                            0 <= j <= en,
                            forall|l: int|
                                0 <= l < j ==> value_wf(
                                    (#[trigger] entries@[l]).0,
                                    self.id,
                                    self.objects@,
                                ) && value_wf(entries@[l].1, self.id, self.objects@),
                        decreases en - j,
                    {
                        if !entries[j].0.owned_by(self) || !entries[j].1.owned_by(self) {
                            proof {
                                assert(!obj_wf(self.objects@[i as int], self.id, self.objects@));
                                assert(!self.wf());
                            }
                            return false;
                        }
                        j += 1;
                    }
                    proof {
                        assert(obj_wf(self.objects@[i as int], self.id, self.objects@));
                    }
                },
                _ => {
                    proof {
                        assert(obj_wf(self.objects@[i as int], self.id, self.objects@));
                    }
                },
            }
            i += 1;
        }
        let mut a: usize = 0;
        while a < n
            invariant
                n == self.objects@.len(),
                0 <= a <= n,
                forall|x: int, y: int|
                    0 <= x < y < n && x < a && self.objects@[x].kind is Str
                        && self.objects@[y].kind is Str ==> (#[trigger] self.objects@[x].kind->Str_0)@
                        != (#[trigger] self.objects@[y].kind->Str_0)@,
            decreases n - a,
        {
            let a_bytes = match &self.objects[a].kind {
                ObjKind::Str(bytes) => Option::Some(bytes),
                _ => Option::None,
            };
            match a_bytes {
                Option::Some(a_bytes) => {
                    let mut b: usize = a + 1;
                    while b < n
                        invariant
                            n == self.objects@.len(),
                            a < n,
                            self.objects@[a as int].kind is Str,
                            a_bytes@ == self.objects@[a as int].kind->Str_0@,
                            a < b <= n,
                            forall|y: int|
                                a < y < b && (#[trigger] self.objects@[y].kind) is Str
                                    ==> self.objects@[a as int].kind->Str_0@
                                    != self.objects@[y].kind->Str_0@,
                        decreases n - b,
                    {
                        let clash = match &self.objects[b].kind {
                            ObjKind::Str(b_bytes) => bytes_equal(a_bytes, b_bytes),
                            _ => false,
                        };
                        if clash {
                            proof {
                                assert(!self.wf());
                            }
                            return false;
                        }
                        b += 1;
                    }
                },
                Option::None => {},
            }
            a += 1;
        }
        let pn = self.pool.len();
        let mut q: usize = 0;
        while q < pn
            invariant
                pn == self.pool@.len(),
                0 <= q <= pn,
                forall|k: int| 0 <= k < q ==> (#[trigger] self.pool@[k])@.len() == 0,
            decreases pn - q,
        {
            if !self.pool[q].is_empty() {
                proof {
                    assert(!self.wf());
                }
                return false;
            }
            q += 1;
        }
        proof {
            assert(self.wf());
        }
        true
    }

    /// Hands out a cleared container, reusing pooled storage when some is
    /// available.
    pub fn new_multivalue_from_pool(&mut self) -> (r: MultiValue)
        requires
            old(self).wf(),
        ensures
            final(self).wf(),
            final(self).id == old(self).id,
            final(self).objects == old(self).objects,
            r@ == Seq::<Value>::empty(),
            old(self).pool@.len() > 0 ==> final(self).pool@ == old(self).pool@.drop_last(),
            old(self).pool@.len() == 0 ==> final(self).pool@ == old(self).pool@,
    {
        match self.pool.pop() {
            Option::Some(mv) => {
                proof {
                    assert(mv@ =~= Seq::<Value>::empty());
                    assert(self.pool@ =~= old(self).pool@.drop_last());
                }
                mv
            },
            Option::None => MultiValue::new(),
        }
    }

    /// Clears a container and returns its storage to the pool.
    pub fn return_multivalue_to_pool(&mut self, multivalue: MultiValue)
        requires
            old(self).wf(),
        ensures
            final(self).wf(),
            final(self).id == old(self).id,
            final(self).objects == old(self).objects,
            final(self).pool@.len() == old(self).pool@.len() + 1,
            forall|i: int|
                0 <= i < old(self).pool@.len() ==> final(self).pool@[i] == old(self).pool@[i],
            final(self).pool@.last()@ == Seq::<Value>::empty(),
    {
        let mut mv = multivalue;
        mv.clear();
        self.pool.push(mv);
    }
}

/// Compares two byte vectors for equality.
pub fn bytes_equal(a: &Vec<u8>, b: &Vec<u8>) -> (r: bool)
    ensures
        r == (a@ == b@),
{
    if a.len() != b.len() {
        proof {
            assert(a@.len() != b@.len());
        }
        return false;
    }
    let n = a.len();
    let mut i: usize = 0;
    while i < n
        invariant
            n == a@.len() == b@.len(),
            0 <= i <= n,
            forall|k: int| 0 <= k < i ==> a@[k] == b@[k],
        decreases n - i,
    {
        if a[i] != b[i] {
            return false;
        }
        i += 1;
    }
    proof {
        assert(a@ =~= b@);
    }
    true
}

/// Well-formedness survives appending an object whose own entries are well
/// formed against the grown registry.
proof fn lemma_registry_grow(before: Seq<Obj>, after: Seq<Obj>, id: u64)
    requires
        after.len() == before.len() + 1,
        forall|i: int| 0 <= i < before.len() ==> after[i] == before[i],
        forall|i: int| 0 <= i < before.len() ==> obj_wf(#[trigger] before[i], id, before),
        obj_wf(after[before.len() as int], id, after),
    ensures
        forall|i: int| 0 <= i < after.len() ==> obj_wf(#[trigger] after[i], id, after),
{
    assert forall|i: int| 0 <= i < after.len() implies obj_wf(#[trigger] after[i], id, after) by {
        if i < before.len() {
            assert(obj_wf(before[i], id, before));
            lemma_obj_wf_weaken(before[i], id, before, after);
        }
    }
}

/// Well-formedness survives an update that keeps every slot's kind
/// constructor.
proof fn lemma_registry_update(before: Seq<Obj>, after: Seq<Obj>, id: u64, at: int)
    requires
        after.len() == before.len(),
        0 <= at < before.len(),
        forall|i: int| 0 <= i < before.len() && i != at ==> after[i] == before[i],
        forall|i: int| 0 <= i < before.len() ==> obj_wf(#[trigger] before[i], id, before),
        obj_wf(after[at], id, after),
        after[at].kind is Str <==> before[at].kind is Str,
        after[at].kind is Str ==> after[at].kind->Str_0@ == before[at].kind->Str_0@,
        after[at].kind is Table <==> before[at].kind is Table,
        after[at].kind is Function <==> before[at].kind is Function,
        after[at].kind is Thread <==> before[at].kind is Thread,
        after[at].kind is UserData <==> before[at].kind is UserData,
    ensures
        forall|i: int| 0 <= i < after.len() ==> obj_wf(#[trigger] after[i], id, after),
{
    assert forall|i: int| 0 <= i < after.len() implies obj_wf(#[trigger] after[i], id, after) by {
        if i != at {
            assert(obj_wf(before[i], id, before));
            lemma_obj_wf_same_shape(before[i], id, before, after);
        }
    }
}

/// A value stays well formed when the registry grows at the end.
proof fn lemma_obj_wf_weaken(o: Obj, id: u64, before: Seq<Obj>, after: Seq<Obj>)
    requires
        obj_wf(o, id, before),
        before.len() <= after.len(),
        forall|i: int| 0 <= i < before.len() ==> after[i] == before[i],
    ensures
        obj_wf(o, id, after),
{
    match o.kind {
        ObjKind::Table(entries) => {
            assert forall|j: int|
                0 <= j < entries@.len() implies value_wf(#[trigger] entries@[j].0, id, after)
                && value_wf(entries@[j].1, id, after) by {
                assert(value_wf(entries@[j].0, id, before));
                assert(value_wf(entries@[j].1, id, before));
            }
        },
        _ => {},
    }
}

/// A value stays well formed when every slot keeps its kind constructor.
proof fn lemma_obj_wf_same_shape(o: Obj, id: u64, before: Seq<Obj>, after: Seq<Obj>)
    requires
        obj_wf(o, id, before),
        before.len() == after.len(),
        forall|i: int|
            0 <= i < before.len() ==> ((#[trigger] after[i].kind) is Str <==> before[i].kind
                is Str) && (after[i].kind is Table <==> before[i].kind is Table) && (after[i].kind
                is Function <==> before[i].kind is Function) && (after[i].kind is Thread
                <==> before[i].kind is Thread) && (after[i].kind is UserData <==> before[i].kind
                is UserData),
    ensures
        obj_wf(o, id, after),
{
    match o.kind {
        ObjKind::Table(entries) => {
            assert forall|j: int|
                0 <= j < entries@.len() implies value_wf(#[trigger] entries@[j].0, id, after)
                && value_wf(entries@[j].1, id, after) by {
                assert(value_wf(entries@[j].0, id, before));
                assert(value_wf(entries@[j].1, id, before));
            }
        },
        _ => {},
    }
}

} // verus!
