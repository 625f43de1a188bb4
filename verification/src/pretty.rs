//! Cycle-aware pretty printing.
//!
//! Recursive display expands table contents, threading a visited set of
//! table slots through the recursion: once a table has been visited, every
//! later encounter renders as the flat pointer form instead of recursing, so
//! printing a self-referential structure terminates.  Termination is proved
//! by the strictly shrinking count of unvisited table slots.

use vstd::prelude::*;
use vstd::string::StringExecFns;
use crate::value::{Value, value_wf, pointer_token, default_handle_text};
use crate::runtime::{Lua, Obj, ObjKind};
use crate::error::error_text;
use crate::text::{dec_int, pointer_text, number_text, push_dec_i64, push_pointer, bytes_to_text};

verus! {

/// How many of the first `n` registry slots hold tables not yet visited.
pub open spec fn unvisited_tables(objs: Seq<Obj>, visited: Seq<usize>, n: nat) -> nat
    decreases n,
{
    if n == 0 {
        0
    } else {
        unvisited_tables(objs, visited, (n - 1) as nat) + if objs[n - 1].kind is Table
            && !visited.contains((n - 1) as usize) {
            1nat
        } else {
            0nat
        }
    }
}

/// Visiting more slots never grows the unvisited count.
proof fn lemma_unvisited_mono(objs: Seq<Obj>, v1: Seq<usize>, v2: Seq<usize>, n: nat)
    requires
        forall|x: usize| v1.contains(x) ==> v2.contains(x),
    ensures
        unvisited_tables(objs, v2, n) <= unvisited_tables(objs, v1, n),
    decreases n,
{
    if n > 0 {
        lemma_unvisited_mono(objs, v1, v2, (n - 1) as nat);
    }
}

/// Visiting one more table slot strictly shrinks the unvisited count.
proof fn lemma_unvisited_shrinks(objs: Seq<Obj>, v1: Seq<usize>, v2: Seq<usize>, n: nat, t: usize)
    requires
        forall|x: usize| v1.contains(x) ==> v2.contains(x),
        t < n,
        objs[t as int].kind is Table,
        !v1.contains(t),
        v2.contains(t),
    ensures
        unvisited_tables(objs, v2, n) < unvisited_tables(objs, v1, n),
    decreases n,
{
    if t + 1 == n {
        lemma_unvisited_mono(objs, v1, v2, (n - 1) as nat);
    } else {
        lemma_unvisited_shrinks(objs, v1, v2, (n - 1) as nat, t);
    }
}

/// Whether a visited list holds a slot.
fn contains_slot(v: &Vec<usize>, x: usize) -> (r: bool)
    ensures
        r == v@.contains(x),
{
    let n = v.len();
    let mut i: usize = 0;
    while i < n
        invariant
            n == v@.len(),
            i <= n,
            forall|k: int| 0 <= k < i ==> v@[k] != x,
        decreases n - i,
    {
        if v[i] == x {
            return true;
        }
        i += 1;
    }
    false
}

/// The flat, single-line rendering of a value: what pretty printing yields
/// for everything it does not expand.
pub open spec fn flat_text(v: Value, lua: Lua) -> Seq<char> {
    match v {
        Value::Nil => "nil"@,
        Value::Boolean(b) => if b {
            "true"@
        } else {
            "false"@
        },
        Value::LightUserData(p) => if p.0 == 0 {
            "null"@
        } else {
            "lightuserdata: "@ + pointer_text(p.0 as int)
        },
        Value::Integer(i) => dec_int(i as int),
        Value::Number(n) => number_text(n.bits),
        // A string's decoded text stands between quotes verbatim; no escape
        // sequences are produced, a deliberate simplification, so a quote
        // inside the text is rendered as itself.
        Value::String(h) => if vstd::utf8::valid_utf8(lua.str_bytes(h)) {
            seq!['"'] + vstd::utf8::decode_utf8(lua.str_bytes(h)) + seq!['"']
        } else {
            default_handle_text(v)
        },
        Value::UserData(h) => match lua.objects@[h.index as int].kind {
            ObjKind::UserData(name) => match name {
                Option::Some(s) => s@ + ": "@ + pointer_text(pointer_token(v)),
                Option::None => default_handle_text(v),
            },
            _ => default_handle_text(v),
        },
        Value::Error(e) => "error"@,
        _ => default_handle_text(v),
    }
}

/// The body of an expanded table: for each entry, its key text and value
/// text framed and separated, in entry order.
pub open spec fn entries_body(parts: Seq<(Seq<char>, Seq<char>)>) -> Seq<char>
    decreases parts.len(),
{
    if parts.len() == 0 {
        Seq::<char>::empty()
    } else {
        entries_body(parts.drop_last()) + "["@ + parts.last().0 + "] = "@ + parts.last().1
            + ", "@
    }
}

impl Value {
    /// Renders the value for debug output.
    ///
    /// With `recursive` set, a table not yet in the visited set is marked
    /// visited and expanded entry by entry; a table already visited, or any
    /// table when `recursive` is clear, renders as the flat pointer form, so
    /// the recursion terminates on self-referential structures.  Errors
    /// render their full text only when `recursive` is set.  The visited set
    /// only ever grows.
    pub fn pretty_string(&self, lua: &Lua, recursive: bool, visited: &mut Vec<usize>) -> (r:
        String)
        requires
            lua.wf(),
            value_wf(*self, lua.id, lua.objects@),
        ensures
            forall|x: usize| old(visited)@.contains(x) ==> final(visited)@.contains(x),
            !(*self is Table) && !(*self is Error) ==> r@ == flat_text(*self, *lua),
            *self is Error && recursive ==> r@ == error_text((*self)->Error_0),
            *self is Error && !recursive ==> r@ == flat_text(*self, *lua),
            *self is Table && (!recursive || old(visited)@.contains(
                self->Table_0.index,
            )) ==> r@ == default_handle_text(*self),
            *self is Table && recursive && !old(visited)@.contains(
                self->Table_0.index,
            ) ==> final(visited)@.contains(self->Table_0.index) && (exists|parts:
                Seq<(Seq<char>, Seq<char>)>|
                {
                    let entries = lua.objects@[self->Table_0.index as int].kind->Table_0@;
                    &&& parts.len() == entries.len()
                    &&& r@ == "{ "@ + #[trigger] entries_body(parts) + "}"@
                    &&& (forall|i: int|
                        0 <= i < entries.len() && !((#[trigger] entries[i].0) is Table) && !(
                        entries[i].0 is Error) ==> parts[i].0 == flat_text(entries[i].0, *lua))
                    &&& (forall|i: int|
                        0 <= i < entries.len() && !((#[trigger] entries[i].1) is Table) && !(
                        entries[i].1 is Error) ==> parts[i].1 == flat_text(entries[i].1, *lua))
                    &&& (forall|i: int|
                        0 <= i < entries.len() && (#[trigger] entries[i].0) is Error
                            ==> parts[i].0 == error_text(entries[i].0->Error_0))
                    &&& (forall|i: int|
                        0 <= i < entries.len() && (#[trigger] entries[i].1) is Error
                            ==> parts[i].1 == error_text(entries[i].1->Error_0))
                    &&& (forall|i: int|
                        0 <= i < entries.len() && (#[trigger] entries[i].0) is Table && (
                        entries[i].0->Table_0.index == self->Table_0.index || old(
                            visited,
                        )@.contains(entries[i].0->Table_0.index)) ==> parts[i].0
                            == default_handle_text(entries[i].0))
                    &&& (forall|i: int|
                        0 <= i < entries.len() && (#[trigger] entries[i].1) is Table && (
                        entries[i].1->Table_0.index == self->Table_0.index || old(
                            visited,
                        )@.contains(entries[i].1->Table_0.index)) ==> parts[i].1
                            == default_handle_text(entries[i].1))
                }),
        decreases unvisited_tables(lua.objects@, visited@, lua.objects@.len() as nat),
    {
        proof {
            reveal_strlit("nil");
            reveal_strlit("true");
            reveal_strlit("false");
            reveal_strlit("null");
            reveal_strlit("lightuserdata: ");
            reveal_strlit("\"");
            reveal_strlit(": ");
            reveal_strlit("error");
            reveal_strlit("userdata");
        }
        let n = lua.objects.len();
        match self {
            Value::Nil => string_of("nil"),
            Value::Boolean(b) => {
                if *b {
                    string_of("true")
                } else {
                    string_of("false")
                }
            },
            Value::LightUserData(p) => {
                if p.0 == 0 {
                    string_of("null")
                } else {
                    let mut s = string_of("lightuserdata: ");
                    push_pointer(p.0, &mut s);
                    proof {
                        assert(s@ =~= flat_text(*self, *lua));
                    }
                    s
                }
            },
            Value::Integer(i) => {
                let mut s = String::new();
                push_dec_i64(*i, &mut s);
                s
            },
            Value::Number(x) => x.display_text(),
            Value::String(h) => {
                let bytes = match &lua.objects[h.index].kind {
                    ObjKind::Str(bytes) => bytes,
                    _ => {
                        proof {
                            assert(false);
                        }
                        return String::new();
                    },
                };
                match bytes_to_text(bytes) {
                    Option::Some(text) => {
                        let mut s = string_of("\"");
                        s.append(text.as_str());
                        s.append("\"");
                        proof {
                            assert(s@ =~= flat_text(*self, *lua));
                        }
                        s
                    },
                    Option::None => self.flat_handle_string(),
                }
            },
            Value::Function(h) => self.flat_handle_string(),
            Value::Thread(h) => self.flat_handle_string(),
            Value::UserData(h) => {
                match &lua.objects[h.index].kind {
                    ObjKind::UserData(name) => {
                        match name {
                            Option::Some(text) => {
                                let mut s = String::new();
                                s.append(text.as_str());
                                s.append(": ");
                                push_pointer(self.to_pointer(), &mut s);
                                proof {
                                    assert(s@ =~= flat_text(*self, *lua));
                                }
                                s
                            },
                            Option::None => self.flat_handle_string(),
                        }
                    },
                    _ => {
                        proof {
                            assert(false);
                        }
                        String::new()
                    },
                }
            },
            Value::Error(e) => {
                if recursive {
                    e.display_text()
                } else {
                    string_of("error")
                }
            },
            Value::Table(h) => {
                if !recursive || contains_slot(visited, h.index) {
                    return self.flat_handle_string();
                }
                let ghost at_entry = old(visited)@;
                visited.push(h.index);
                proof {
                    assert(visited@ =~= at_entry.push(h.index));
                    assert(visited@[visited@.len() - 1] == h.index);
                    assert(visited@.contains(h.index));
                    assert forall|x: usize| at_entry.contains(x) implies visited@.contains(x) by {
                        let ix = choose|ix: int| 0 <= ix < at_entry.len() && at_entry[ix] == x;
                        assert(visited@[ix] == x);
                    }
                    lemma_unvisited_shrinks(
                        lua.objects@,
                        at_entry,
                        visited@,
                        lua.objects@.len() as nat,
                        h.index,
                    );
                }
                let entries = match &lua.objects[h.index].kind {
                    ObjKind::Table(entries) => entries,
                    _ => {
                        proof {
                            assert(false);
                        }
                        return String::new();
                    },
                };
                proof {
                    reveal_strlit("{ ");
                    reveal_strlit("[");
                    reveal_strlit("] = ");
                    reveal_strlit(", ");
                    reveal_strlit("}");
                }
                let mut s = string_of("{ ");
                let ghost mut parts: Seq<(Seq<char>, Seq<char>)> = Seq::empty();
                proof {
                    assert(s@.subrange(0, 2) =~= "{ "@);
                    assert(s@ =~= "{ "@ + entries_body(parts));
                }
                let m = entries.len();
                let mut j: usize = 0;
                while j < m
                    invariant
                        recursive,
                        parts.len() == j,
                        s@ == "{ "@ + entries_body(parts),
                        forall|i: int|
                            0 <= i < j && !((#[trigger] entries@[i].0) is Table) && !(entries@[i].0
                                is Error) ==> parts[i].0 == flat_text(entries@[i].0, *lua),
                        forall|i: int|
                            0 <= i < j && !((#[trigger] entries@[i].1) is Table) && !(entries@[i].1
                                is Error) ==> parts[i].1 == flat_text(entries@[i].1, *lua),
                        forall|i: int|
                            0 <= i < j && (#[trigger] entries@[i].0) is Error ==> parts[i].0
                                == error_text(entries@[i].0->Error_0),
                        forall|i: int|
                            0 <= i < j && (#[trigger] entries@[i].1) is Error ==> parts[i].1
                                == error_text(entries@[i].1->Error_0),
                        forall|i: int|
                            0 <= i < j && (#[trigger] entries@[i].0) is Table && (
                            entries@[i].0->Table_0.index == h.index || old(visited)@.contains(
                                entries@[i].0->Table_0.index,
                            )) ==> parts[i].0 == default_handle_text(entries@[i].0),
                        forall|i: int|
                            0 <= i < j && (#[trigger] entries@[i].1) is Table && (
                            entries@[i].1->Table_0.index == h.index || old(visited)@.contains(
                                entries@[i].1->Table_0.index,
                            )) ==> parts[i].1 == default_handle_text(entries@[i].1),
                        s@.len() >= 2,
                        s@.subrange(0, 2) == "{ "@,
                        lua.wf(),
                        value_wf(*self, lua.id, lua.objects@),
                        *self is Table,
                        self->Table_0 == h,
                        h.index < lua.objects@.len(),
                        lua.objects@[h.index as int].kind is Table,
                        entries@ == lua.objects@[h.index as int].kind->Table_0@,
                        m == entries@.len(),
                        j <= m,
                        visited@.contains(h.index),
                        forall|x: usize| old(visited)@.contains(x) ==> visited@.contains(x),
                        unvisited_tables(lua.objects@, visited@, lua.objects@.len() as nat)
                            < unvisited_tables(
                            lua.objects@,
                            old(visited)@,
                            lua.objects@.len() as nat,
                        ),
                    decreases m - j,
                {
                    let (k, v) = (&entries[j].0, &entries[j].1);
                    proof {
                        assert(obj_wf_entry(*lua, h.index as int, j as int));
                    }
                    s.append("[");
                    let ghost before_k = visited@;
                    let kt = k.pretty_string(lua, recursive, visited);
                    proof {
                        lemma_unvisited_mono(lua.objects@, before_k, visited@, lua.objects@.len() as nat);
                    }
                    s.append(kt.as_str());
                    s.append("] = ");
                    let ghost before_v = visited@;
                    let vt = v.pretty_string(lua, recursive, visited);
                    proof {
                        lemma_unvisited_mono(lua.objects@, before_v, visited@, lua.objects@.len() as nat);
                    }
                    s.append(vt.as_str());
                    s.append(", ");
                    proof {
                        let prev = parts;
                        parts = prev.push((kt@, vt@));
                        assert(parts.drop_last() =~= prev);
                        assert(parts.last() == (kt@, vt@));
                        assert(s@ =~= "{ "@ + entries_body(parts));
                        assert(s@.subrange(0, 2) =~= "{ "@);
                    }
                    j += 1;
                }
                let ghost final_parts = parts;
                s.append("}");
                proof {
                    reveal_strlit("}");
                    assert(s@ =~= "{ "@ + entries_body(final_parts) + "}"@);
                    assert(s@.subrange(0, 2) =~= "{ "@);
                }
                s
            },
        }
    }

    /// The flat pointer form of a handle-backed value.
    fn flat_handle_string(&self) -> (r: String)
        requires
            *self is String || *self is Table || *self is Function || *self is Thread || *self
                is UserData,
            pointer_token(*self) <= usize::MAX,
        ensures
            r@ == default_handle_text(*self),
    {
        proof {
            reveal_strlit(": ");
        }
        let mut s = String::new();
        s.append(self.variant_name());
        s.append(": ");
        push_pointer(self.to_pointer(), &mut s);
        proof {
            assert(s@ =~= default_handle_text(*self));
        }
        s
    }
}

/// Both values of one table entry are well formed.
pub open spec fn obj_wf_entry(lua: Lua, slot: int, j: int) -> bool {
    &&& value_wf(lua.objects@[slot].kind->Table_0@[j].0, lua.id, lua.objects@)
    &&& value_wf(lua.objects@[slot].kind->Table_0@[j].1, lua.id, lua.objects@)
}

/// A fresh string holding the given text.
fn string_of(text: &str) -> (r: String)
    ensures
        r@ == text@,
{
    let mut s = String::new();
    s.append(text);
    s
}

} // verus!
