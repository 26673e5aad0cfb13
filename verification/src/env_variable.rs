//! A saved environment variable (a name and a path) and the operations on
//! the list of saved variables.

use vstd::prelude::*;
use crate::text::{str_eq};

verus! {

/// An environment variable: its name and the path it holds.
#[derive(Clone, Debug)]
pub struct EnvVariable {
    variable_name: String,
    path: String,
}

impl View for EnvVariable {
    /// The variable's name and path.
    type V = (Seq<char>, Seq<char>);

    closed spec fn view(&self) -> (Seq<char>, Seq<char>) {
        (self.variable_name@, self.path@)
    }
}

/// Two variables are equal when their names and their paths are.
impl PartialEq for EnvVariable {
    fn eq(&self, other: &Self) -> (r: bool) {
        self.variable_name == other.variable_name && self.path == other.path
    }
}

impl vstd::std_specs::cmp::PartialEqSpecImpl for EnvVariable {
    open spec fn obeys_eq_spec() -> bool {
        true
    }

    open spec fn eq_spec(&self, other: &Self) -> bool {
        self@ == other@
    }
}

/// The names and paths of a list of variables.
pub open spec fn entries(list: Seq<EnvVariable>) -> Seq<(Seq<char>, Seq<char>)> {
    list.map_values(|e: EnvVariable| e@)
}

/// The name (`by_path == false`) or the path (`by_path == true`) of an entry.
pub open spec fn key_of(e: (Seq<char>, Seq<char>), by_path: bool) -> Seq<char> {
    if by_path {
        e.1
    } else {
        e.0
    }
}

/// Index of the first entry whose name (or path) is `key`, or -1 when there is none.
pub open spec fn first_index(m: Seq<(Seq<char>, Seq<char>)>, by_path: bool, key: Seq<char>) -> int
    decreases m.len(),
{
    if m.len() == 0 {
        -1
    } else {
        let r = first_index(m.drop_last(), by_path, key);
        if r >= 0 {
            r
        } else if key_of(m.last(), by_path) == key {
            m.len() - 1
        } else {
            -1
        }
    }
}

/// Index of the first entry named `name`, or -1.
pub open spec fn name_index(m: Seq<(Seq<char>, Seq<char>)>, name: Seq<char>) -> int {
    first_index(m, false, name)
}

/// Index of the first entry with path `path`, or -1.
pub open spec fn path_index(m: Seq<(Seq<char>, Seq<char>)>, path: Seq<char>) -> int {
    first_index(m, true, path)
}

/// No two entries share a name.
pub open spec fn unique_names(m: Seq<(Seq<char>, Seq<char>)>) -> bool {
    forall|i: int, j: int| 0 <= i < m.len() && 0 <= j < m.len() && i != j ==> m[i].0 != m[j].0
}

/// At most one entry is named `name`.
pub open spec fn single_named(m: Seq<(Seq<char>, Seq<char>)>, name: Seq<char>) -> bool {
    forall|i: int, j: int|
        0 <= i < m.len() && 0 <= j < m.len() && #[trigger] m[i].0 == name && #[trigger] m[j].0 == name ==> i == j
}

/// The list after saving `e`: the first entry with `e`'s name takes `e`'s
/// path, or `e` is appended when no entry has that name.
pub open spec fn saved(m: Seq<(Seq<char>, Seq<char>)>, e: (Seq<char>, Seq<char>)) -> Seq<(Seq<char>, Seq<char>)> {
    let i = name_index(m, e.0);
    if i >= 0 {
        m.update(i, e)
    } else {
        m.push(e)
    }
}

/// The list after removing the first entry named `name`: the last entry
/// takes its place (as `Vec::swap_remove` does); unchanged when no entry has that name.
pub open spec fn removed(m: Seq<(Seq<char>, Seq<char>)>, name: Seq<char>) -> Seq<(Seq<char>, Seq<char>)> {
    let i = name_index(m, name);
    if i >= 0 {
        m.update(i, m.last()).drop_last()
    } else {
        m
    }
}

/// The text `export NAME=PATH`.
pub open spec fn export_line(e: (Seq<char>, Seq<char>)) -> Seq<char> {
    "export "@ + e.0 + "="@ + e.1
}

/// `first_index` is -1 or the index of the first matching entry.
pub proof fn lemma_first_index(m: Seq<(Seq<char>, Seq<char>)>, by_path: bool, key: Seq<char>)
    ensures
        -1 <= first_index(m, by_path, key) < m.len(),
        first_index(m, by_path, key) >= 0 ==> key_of(m[first_index(m, by_path, key)], by_path) == key,
        forall|j: int|
            0 <= j < m.len() && (first_index(m, by_path, key) == -1 || j < first_index(m, by_path, key))
                ==> key_of(#[trigger] m[j], by_path) != key,
    decreases m.len(),
{
    if m.len() > 0 {
        lemma_first_index(m.drop_last(), by_path, key);
        assert forall|j: int|
            0 <= j < m.len() && (first_index(m, by_path, key) == -1 || j < first_index(m, by_path, key))
                implies key_of(#[trigger] m[j], by_path) != key by {
            if j < m.len() - 1 {
                assert(m.drop_last()[j] == m[j]);
            }
        }
    }
}

/// The first matching entry is at `i` when `i` matches and no earlier entry does.
pub proof fn lemma_first_index_at(m: Seq<(Seq<char>, Seq<char>)>, by_path: bool, key: Seq<char>, i: int)
    requires
        0 <= i < m.len(),
        key_of(m[i], by_path) == key,
        forall|j: int| 0 <= j < i ==> key_of(#[trigger] m[j], by_path) != key,
    ensures
        first_index(m, by_path, key) == i,
{
    lemma_first_index(m, by_path, key);
}

/// No entry matches: `first_index` is -1.
pub proof fn lemma_first_index_none(m: Seq<(Seq<char>, Seq<char>)>, by_path: bool, key: Seq<char>)
    requires
        forall|j: int| 0 <= j < m.len() ==> key_of(#[trigger] m[j], by_path) != key,
    ensures
        first_index(m, by_path, key) == -1,
{
    lemma_first_index(m, by_path, key);
}

impl EnvVariable {
    /// The line `export NAME=PATH` that sets this variable in a shell.
    pub fn get_export_string(&self) -> (r: String)
        ensures
            r@ == export_line(self@),
    {
        let mut r = String::from_str("export ");
        r.append(self.variable_name.as_str());
        r.append("=");
        r.append(self.path.as_str());
        r
    }

    /// A variable with the given name and path.
    pub fn create_instance(var_name: &str, path: &str) -> (r: EnvVariable)
        ensures
            r@ == (var_name@, path@),
    {
        EnvVariable { variable_name: String::from_str(var_name), path: String::from_str(path) }
    }

    /// The variable's name.
    pub fn get_variable_name(&self) -> (r: &str)
        ensures
            r@ == self@.0,
    {
        self.variable_name.as_str()
    }

    /// The variable's path.
    pub fn get_path(&self) -> (r: &str)
        ensures
            r@ == self@.1,
    {
        self.path.as_str()
    }

    /// Replaces the variable's path; the name stays.
    pub fn set_path(&mut self, path: &str)
        ensures
            final(self)@ == (old(self)@.0, path@),
    {
        self.path = String::from_str(path);
    }

    /// A separate variable with the same name and path.
    pub fn duplicate(&self) -> (r: EnvVariable)
        ensures
            r@ == self@,
    {
        EnvVariable { variable_name: self.variable_name.clone(), path: self.path.clone() }
    }
}

/// Position of the first variable named `var_name` in `list`, as an `i32`,
/// or -1 when no variable has that name.
pub fn get_java_version_index_by_name(var_name: &str, list: &Vec<EnvVariable>) -> (r: i32)
    ensures
        r == name_index(entries(list@), var_name@) as i32,
{
    let ghost m = entries(list@);
    let mut i: usize = 0;
    while i < list.len()
        invariant
            i <= list@.len(),
            m == entries(list@),
            forall|j: int| 0 <= j < i ==> key_of(#[trigger] m[j], false) != var_name@,
        decreases list@.len() - i,
    {
        if str_eq(list[i].variable_name.as_str(), var_name) {
            proof {
                lemma_first_index_at(m, false, var_name@, i as int);
            }
            return i as i32;
        }
        i += 1;
    }
    proof {
        lemma_first_index_none(m, false, var_name@);
    }
    -1
}

/// A copy of the first variable whose path is `var_path`, if any.
pub fn get_java_version_by_path(var_path: &str, list: &Vec<EnvVariable>) -> (r: Option<EnvVariable>)
    ensures
        r is Some <==> path_index(entries(list@), var_path@) >= 0,
        r matches Some(e) ==> e@ == entries(list@)[path_index(entries(list@), var_path@)],
        r matches Some(e) ==> e@.1 == var_path@,
{
    let ghost m = entries(list@);
    let mut i: usize = 0;
    while i < list.len()
        invariant
            i <= list@.len(),
            m == entries(list@),
            forall|j: int| 0 <= j < i ==> key_of(#[trigger] m[j], true) != var_path@,
        decreases list@.len() - i,
    {
        if str_eq(list[i].path.as_str(), var_path) {
            proof {
                lemma_first_index_at(m, true, var_path@, i as int);
            }
            return Some(list[i].duplicate());
        }
        i += 1;
    }
    proof {
        lemma_first_index_none(m, true, var_path@);
    }
    None
}

/// Saves `java_version` in `list`: the first variable with the same name
/// takes its path, or it is appended when no variable has that name.
pub fn save_java_version(list: &mut Vec<EnvVariable>, java_version: EnvVariable)
    requires
        old(list)@.len() <= i32::MAX,
    ensures
        entries(final(list)@) == saved(entries(old(list)@), java_version@),
{
    let ghost m = entries(list@);
    let index = get_java_version_index_by_name(java_version.get_variable_name(), list);
    proof {
        lemma_first_index(m, false, java_version@.0);
    }
    if index != -1 {
        let i = index as usize;
        assert(i as int == name_index(m, java_version@.0));
        list[i].set_path(java_version.get_path());
        assert(entries(list@) =~= m.update(i as int, java_version@));
    } else {
        list.push(java_version);
        assert(entries(list@) =~= m.push(java_version@));
    }
}

/// Removes the first variable named `var_name` from `list`, the last
/// variable taking its place, and returns it; `None`, with `list`
/// unchanged, when no variable has that name.
pub fn remove_java_version_by_name(list: &mut Vec<EnvVariable>, var_name: &str) -> (r: Option<EnvVariable>)
    requires
        old(list)@.len() <= i32::MAX,
    ensures
        entries(final(list)@) == removed(entries(old(list)@), var_name@),
        r is Some <==> name_index(entries(old(list)@), var_name@) >= 0,
        r matches Some(e) ==> e@ == entries(old(list)@)[name_index(entries(old(list)@), var_name@)],
{
    let ghost m = entries(list@);
    if list.is_empty() {
        proof {
            lemma_first_index(m, false, var_name@);
        }
        return None;
    }
    let index = get_java_version_index_by_name(var_name, list);
    proof {
        lemma_first_index(m, false, var_name@);
    }
    if index == -1 {
        None
    } else {
        let i = index as usize;
        let e = list.swap_remove(i);
        assert(entries(list@) =~= m.update(i as int, m.last()).drop_last());
        Some(e)
    }
}

/// Two lists whose entries have the same keys, position by position, have
/// the same first matching index.
pub proof fn lemma_first_index_same_keys(
    a: Seq<(Seq<char>, Seq<char>)>,
    b: Seq<(Seq<char>, Seq<char>)>,
    by_path: bool,
    key: Seq<char>,
)
    requires
        a.len() == b.len(),
        forall|j: int| 0 <= j < a.len() ==> key_of(#[trigger] a[j], by_path) == key_of(b[j], by_path),
    ensures
        first_index(a, by_path, key) == first_index(b, by_path, key),
{
    lemma_first_index(a, by_path, key);
    lemma_first_index(b, by_path, key);
    let ia = first_index(a, by_path, key);
    if ia >= 0 {
        assert forall|j: int| 0 <= j < ia implies key_of(#[trigger] b[j], by_path) != key by {
            assert(key_of(a[j], by_path) != key);
        }
        assert(key_of(a[ia], by_path) == key_of(b[ia], by_path));
        lemma_first_index_at(b, by_path, key, ia);
    } else {
        assert forall|j: int| 0 <= j < b.len() implies key_of(#[trigger] b[j], by_path) != key by {
            assert(key_of(a[j], by_path) != key);
        }
        lemma_first_index_none(b, by_path, key);
    }
}

/// After a variable is saved, looking its name up finds it, with the saved path.
pub proof fn lemma_saved_then_found(m: Seq<(Seq<char>, Seq<char>)>, e: (Seq<char>, Seq<char>))
    ensures
        name_index(saved(m, e), e.0) >= 0,
        saved(m, e)[name_index(saved(m, e), e.0)] == e,
{
    lemma_first_index(m, false, e.0);
    let i = name_index(m, e.0);
    let s = saved(m, e);
    if i >= 0 {
        assert forall|j: int| 0 <= j < i implies key_of(#[trigger] s[j], false) != e.0 by {
            assert(key_of(m[j], false) != e.0);
        }
        lemma_first_index_at(s, false, e.0, i);
    } else {
        assert forall|j: int| 0 <= j < m.len() implies key_of(#[trigger] s[j], false) != e.0 by {
            assert(key_of(m[j], false) != e.0);
        }
        lemma_first_index_at(s, false, e.0, m.len() as int);
    }
}

/// Saving a variable changes nothing that a lookup of another name finds.
pub proof fn lemma_saved_keeps_others(
    m: Seq<(Seq<char>, Seq<char>)>,
    e: (Seq<char>, Seq<char>),
    name: Seq<char>,
)
    requires
        name != e.0,
    ensures
        name_index(saved(m, e), name) == name_index(m, name),
        name_index(m, name) >= 0 ==> saved(m, e)[name_index(m, name)] == m[name_index(m, name)],
{
    lemma_first_index(m, false, e.0);
    lemma_first_index(m, false, name);
    let i = name_index(m, e.0);
    let s = saved(m, e);
    if i >= 0 {
        assert forall|j: int| 0 <= j < s.len() implies key_of(#[trigger] s[j], false) == key_of(m[j], false) by {
        }
        lemma_first_index_same_keys(s, m, false, name);
    } else {
        let k = name_index(m, name);
        if k >= 0 {
            assert forall|j: int| 0 <= j < k implies key_of(#[trigger] s[j], false) != name by {
                assert(key_of(m[j], false) != name);
            }
            lemma_first_index_at(s, false, name, k);
        } else {
            assert forall|j: int| 0 <= j < s.len() implies key_of(#[trigger] s[j], false) != name by {
                if j < m.len() {
                    assert(key_of(m[j], false) != name);
                }
            }
            lemma_first_index_none(s, false, name);
        }
    }
}

/// Saving grows the list by one exactly when no variable had the saved name.
pub proof fn lemma_saved_len(m: Seq<(Seq<char>, Seq<char>)>, e: (Seq<char>, Seq<char>))
    ensures
        saved(m, e).len() == m.len() + (if name_index(m, e.0) >= 0 { 0int } else { 1int }),
{
    lemma_first_index(m, false, e.0);
}

/// Saving keeps the names of the list distinct.
pub proof fn lemma_saved_unique(m: Seq<(Seq<char>, Seq<char>)>, e: (Seq<char>, Seq<char>))
    requires
        unique_names(m),
    ensures
        unique_names(saved(m, e)),
{
    lemma_first_index(m, false, e.0);
    let s = saved(m, e);
    let i = name_index(m, e.0);
    if i < 0 {
        assert forall|a: int, b: int| 0 <= a < s.len() && 0 <= b < s.len() && a != b implies s[a].0 != s[b].0 by {
            if a < m.len() && b < m.len() {
            } else if a < m.len() {
                assert(key_of(m[a], false) != e.0);
            } else {
                assert(key_of(m[b], false) != e.0);
            }
        }
    }
}

/// Saving the same variable twice is the same as saving it once.
pub proof fn lemma_saved_idempotent(m: Seq<(Seq<char>, Seq<char>)>, e: (Seq<char>, Seq<char>))
    ensures
        saved(saved(m, e), e) == saved(m, e),
{
    lemma_saved_then_found(m, e);
    let s = saved(m, e);
    lemma_first_index(s, false, e.0);
    assert(s.update(name_index(s, e.0), e) =~= s);
}

/// In a list with distinct names, a removed name is no longer found.
pub proof fn lemma_removed_not_found(m: Seq<(Seq<char>, Seq<char>)>, name: Seq<char>)
    requires
        unique_names(m),
    ensures
        name_index(removed(m, name), name) == -1,
{
    lemma_first_index(m, false, name);
    let i = name_index(m, name);
    let r = removed(m, name);
    if i >= 0 {
        assert forall|j: int| 0 <= j < r.len() implies key_of(#[trigger] r[j], false) != name by {
            if j == i {
                assert(m[m.len() - 1].0 != m[i].0);
            } else {
                assert(m[j].0 != m[i].0);
            }
        }
        lemma_first_index_none(r, false, name);
    }
}

/// Removing keeps the names of the list distinct.
pub proof fn lemma_removed_unique(m: Seq<(Seq<char>, Seq<char>)>, name: Seq<char>)
    requires
        unique_names(m),
    ensures
        unique_names(removed(m, name)),
{
    lemma_first_index(m, false, name);
    let i = name_index(m, name);
    let r = removed(m, name);
    if i >= 0 {
        let last = m.len() - 1;
        assert forall|a: int, b: int| 0 <= a < r.len() && 0 <= b < r.len() && a != b implies r[a].0 != r[b].0 by {
            let a0 = if a == i { last } else { a };
            let b0 = if b == i { last } else { b };
            assert(r[a] == m[a0]);
            assert(r[b] == m[b0]);
        }
    }
}

/// Removing shrinks the list by one exactly when a variable had the name.
pub proof fn lemma_removed_len(m: Seq<(Seq<char>, Seq<char>)>, name: Seq<char>)
    ensures
        removed(m, name).len() == m.len() - (if name_index(m, name) >= 0 { 1int } else { 0int }),
{
    lemma_first_index(m, false, name);
}

/// Saving a variable under a new name and then removing that name gives
/// back the list as it was.
pub proof fn lemma_save_new_then_remove(m: Seq<(Seq<char>, Seq<char>)>, e: (Seq<char>, Seq<char>))
    requires
        name_index(m, e.0) == -1,
    ensures
        removed(saved(m, e), e.0) == m,
{
    lemma_first_index(m, false, e.0);
    let s = saved(m, e);
    assert forall|j: int| 0 <= j < m.len() implies key_of(#[trigger] s[j], false) != e.0 by {
        assert(key_of(m[j], false) != e.0);
    }
    lemma_first_index_at(s, false, e.0, m.len() as int);
    assert(s.update(m.len() as int, s.last()).drop_last() =~= m);
}

} // verus!
