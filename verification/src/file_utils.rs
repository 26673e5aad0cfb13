//! Reading and rewriting the `export` lines of a shell start-up file
//! (`.bashrc`): the text is handed in and the new text handed back.

use vstd::prelude::*;
use crate::config::{JAVA_HOME_KEY, PATH_KEY};
use crate::env_variable::{
    entries, export_line, get_java_version_index_by_name, key_of, lemma_first_index,
    lemma_first_index_at, name_index, single_named, EnvVariable,
};
use crate::text::{
    contains, ends_with, starts_with, lemma_char_pos_at, lemma_contains_prefix, lemma_lines_append, lemma_no_straddle,
    lemma_replace_concat, lemma_lines_line_newline, lemma_lines_not_contain,
    lemma_lines_single, lemma_not_contains_concat, lemma_not_contains_push, lemma_replace_absent,
    lemma_replace_prefix, lines, occurs_at, replace, second_field, seq_contains, seq_lines,
    seq_replace, seq_second_field, seq_trim_end, strip_cr, trim_end_matches,
};

verus! {

/// The value that the first suitable line of `ls` gives to `name`: the first
/// line that contains `export NAME` and, once every `export ` is deleted from
/// it, has a second `=`-separated field; that field is the value.
pub open spec fn var_in_lines(ls: Seq<Seq<char>>, name: Seq<char>) -> Option<Seq<char>>
    decreases ls.len(),
{
    if ls.len() == 0 {
        None
    } else {
        let l = ls[0];
        let f = seq_second_field(seq_replace(l, "export "@, Seq::empty()), '=');
        if seq_contains(l, "export "@ + name) && f is Some {
            f
        } else {
            var_in_lines(ls.drop_first(), name)
        }
    }
}

/// The value that the start-up file text `content` exports for `name`, if any.
pub open spec fn var_value(content: Seq<char>, name: Seq<char>) -> Option<Seq<char>> {
    var_in_lines(seq_lines(content), name)
}

/// `content` without the line that exports `name` with the value `v`, when there is a value.
pub open spec fn without_export(content: Seq<char>, name: Seq<char>, v: Option<Seq<char>>) -> Seq<char> {
    match v {
        Some(p) => seq_replace(content, export_line((name, p)), Seq::empty()),
        None => content,
    }
}

/// The entry `(name, value)` when there is a value, else nothing.
pub open spec fn found_entry(name: Seq<char>, v: Option<Seq<char>>) -> Seq<(Seq<char>, Seq<char>)> {
    match v {
        Some(p) => seq![(name, p)],
        None => Seq::empty(),
    }
}

/// The start-up file text once the `JAVA_HOME` and `PATH` exports are taken
/// out of it, and trailing newlines dropped.
pub open spec fn remaining_content(content: Seq<char>) -> Seq<char> {
    let jh = var_value(content, "JAVA_HOME"@);
    let p = var_value(content, "PATH"@);
    seq_trim_end(without_export(without_export(content, "JAVA_HOME"@, jh), "PATH"@, p), "\n"@)
}

/// The `JAVA_HOME` entry that selects the installation at `java_path`: the
/// path without trailing `/`, followed by `/bin`.
pub open spec fn java_home_entry(java_path: Seq<char>) -> (Seq<char>, Seq<char>) {
    ("JAVA_HOME"@, seq_trim_end(java_path, "/"@) + "/bin"@)
}

/// A search path with every `:$JAVA_HOME` deleted and one appended at its end.
pub open spec fn path_with_java_home(path: Seq<char>) -> Seq<char> {
    seq_replace(path, ":$JAVA_HOME"@, Seq::empty()) + ":$"@ + "JAVA_HOME"@
}

/// The known variables once `JAVA_HOME` is set to `jh`: an existing
/// `JAVA_HOME` entry is taken out and `jh` appended; nothing changes when
/// there was none.
pub open spec fn globals_after_set(m: Seq<(Seq<char>, Seq<char>)>, jh: (Seq<char>, Seq<char>)) -> Seq<(Seq<char>, Seq<char>)> {
    let k = name_index(m, "JAVA_HOME"@);
    if k >= 0 {
        m.remove(k).push(jh)
    } else {
        m
    }
}

/// The start-up file text that selects the installation at `java_path`:
/// `content`, then the `JAVA_HOME` export and the `PATH` export that ends in
/// `:$JAVA_HOME`, each on its own line.
pub open spec fn content_after_set(
    content: Seq<char>,
    m: Seq<(Seq<char>, Seq<char>)>,
    java_path: Seq<char>,
) -> Seq<char> {
    let p = m[name_index(m, "PATH"@)];
    content + "\n"@ + export_line(java_home_entry(java_path)) + "\n"@ + export_line(
        (p.0, path_with_java_home(p.1)),
    )
}

/// The variable `variable_name` as the first suitable `export` line of
/// `content` sets it (see `var_in_lines`).
pub fn get_var_from_content(content: &str, variable_name: &str) -> (r: Option<EnvVariable>)
    ensures
        r is Some <==> var_value(content@, variable_name@) is Some,
        r matches Some(e) ==> e@ == (variable_name@, var_value(content@, variable_name@)->0),
{
    proof {
        reveal_strlit("export ");
        reveal_strlit("");
        assert(""@ =~= Seq::<char>::empty());
    }
    let ls = lines(content);
    let ghost views = ls@.map_values(|l: String| l@);
    let mut needle = String::from_str("export ");
    needle.append(variable_name);
    let mut i: usize = 0;
    assert(views.skip(0) =~= views);
    while i < ls.len()
        invariant
            i <= ls@.len(),
            views == ls@.map_values(|l: String| l@),
            views == seq_lines(content@),
            needle@ == "export "@ + variable_name@,
            var_value(content@, variable_name@) == var_in_lines(views.skip(i as int), variable_name@),
        decreases ls@.len() - i,
    {
        proof {
            reveal_strlit("export ");
            reveal_strlit("");
            assert(""@ =~= Seq::<char>::empty());
        }
        let ghost rest = views.skip(i as int);
        assert(rest[0] == ls@[i as int]@);
        assert(rest.drop_first() =~= views.skip(i + 1));
        let line = ls[i].as_str();
        if contains(line, needle.as_str()) {
            let stripped = replace(line, "export ", "");
            let field = second_field(stripped.as_str(), '=');
            match field {
                Some(val) => {
                    return Some(EnvVariable::create_instance(variable_name, val.as_str()));
                },
                None => {},
            }
        }
        i += 1;
    }
    assert(views.skip(i as int).len() == 0);
    None
}

/// Adds a copy of `op_var` to the known variables.
pub fn add_env_variable(globals: &mut Vec<EnvVariable>, op_var: &EnvVariable)
    ensures
        entries(final(globals)@) == entries(old(globals)@).push(op_var@),
{
    let ghost m = entries(globals@);
    globals.push(EnvVariable::create_instance(op_var.get_variable_name(), op_var.get_path()));
    assert(entries(globals@) =~= m.push(op_var@));
}

/// Unless `op_var` has an empty name and an empty path: records it among the
/// known variables and deletes its `export` line from `content`.
pub fn add_and_remove_from_content(
    content: &mut String,
    globals: &mut Vec<EnvVariable>,
    op_var: &EnvVariable,
)
    ensures
        op_var@.0.len() == 0 && op_var@.1.len() == 0 ==> final(content)@ == old(content)@
            && entries(final(globals)@) == entries(old(globals)@),
        !(op_var@.0.len() == 0 && op_var@.1.len() == 0) ==> final(content)@ == seq_replace(
            old(content)@,
            export_line(op_var@),
            Seq::empty(),
        ) && entries(final(globals)@) == entries(old(globals)@).push(op_var@),
{
    proof {
        reveal_strlit("export ");
        reveal_strlit("");
        assert(""@ =~= Seq::<char>::empty());
    }
    if op_var.get_variable_name().is_empty() && op_var.get_path().is_empty() {
        return;
    }
    add_env_variable(globals, op_var);
    let export = op_var.get_export_string();
    let replaced = replace(content.as_str(), export.as_str(), "");
    *content = replaced;
}

/// Takes the `JAVA_HOME` and `PATH` exports out of the start-up file text
/// `content`, records them among the known variables (`JAVA_HOME` first),
/// and returns the rest of the text without trailing newlines.
pub fn extract_variables_from_content(content: &str, globals: &mut Vec<EnvVariable>) -> (r: String)
    ensures
        r@ == remaining_content(content@),
        entries(final(globals)@) == entries(old(globals)@) + found_entry(
            "JAVA_HOME"@,
            var_value(content@, "JAVA_HOME"@),
        ) + found_entry("PATH"@, var_value(content@, "PATH"@)),
{
    proof {
        reveal_strlit("JAVA_HOME");
        reveal_strlit("PATH");
        reveal_strlit("\n");
        reveal_strlit("");
        assert(""@ =~= Seq::<char>::empty());
    }
    let ghost m0 = entries(globals@);
    let java_home = get_var_from_content(content, JAVA_HOME_KEY);
    let path = get_var_from_content(content, PATH_KEY);
    let mut text = String::from_str(content);
    let jh_var = match java_home {
        Some(v) => v,
        None => EnvVariable::create_instance("", ""),
    };
    add_and_remove_from_content(&mut text, globals, &jh_var);
    let ghost m1 = entries(globals@);
    assert(m1 =~= m0 + found_entry("JAVA_HOME"@, var_value(content@, "JAVA_HOME"@)));
    let path_var = match path {
        Some(v) => v,
        None => EnvVariable::create_instance("", ""),
    };
    add_and_remove_from_content(&mut text, globals, &path_var);
    assert(entries(globals@) =~= m1 + found_entry("PATH"@, var_value(content@, "PATH"@)));
    trim_end_matches(text.as_str(), "\n")
}

/// The start-up file text that selects the Java installation of `java_var`
/// (see `content_after_set`), given the text `file_content` from which the
/// old exports were taken; the known variables are updated as
/// `globals_after_set` says.
pub fn set_java_home(file_content: &str, globals: &mut Vec<EnvVariable>, java_var: &EnvVariable) -> (r: String)
    requires
        name_index(entries(old(globals)@), "PATH"@) >= 0,
        old(globals)@.len() <= i32::MAX,
    ensures
        r@ == content_after_set(file_content@, entries(old(globals)@), java_var@.1),
        entries(final(globals)@) == globals_after_set(
            entries(old(globals)@),
            java_home_entry(java_var@.1),
        ),
{
    proof {
        reveal_strlit("JAVA_HOME");
        reveal_strlit("PATH");
        reveal_strlit("/");
        reveal_strlit("/bin");
        reveal_strlit(":$JAVA_HOME");
        reveal_strlit(":$");
        reveal_strlit("\n");
        reveal_strlit("");
        assert(""@ =~= Seq::<char>::empty());
    }
    let ghost m = entries(globals@);
    let mut home_path = trim_end_matches(java_var.get_path(), "/");
    home_path.append("/bin");
    let java_home_var = EnvVariable::create_instance(JAVA_HOME_KEY, home_path.as_str());
    let index = get_java_version_index_by_name(PATH_KEY, globals);
    proof {
        lemma_first_index(m, false, "PATH"@);
        lemma_first_index(m, false, "JAVA_HOME"@);
    }
    let mut path_var = globals[index as usize].duplicate();
    let index2 = get_java_version_index_by_name(JAVA_HOME_KEY, globals);
    if index2 != -1 {
        let k = index2 as usize;
        globals.remove(k);
        globals.push(java_home_var.duplicate());
        assert(entries(globals@) =~= m.remove(k as int).push(java_home_var@));
    }
    let mut new_path = replace(path_var.get_path(), ":$JAVA_HOME", "");
    new_path.append(":$");
    new_path.append(java_home_var.get_variable_name());
    path_var.set_path(new_path.as_str());
    let mut content = String::from_str(file_content);
    content.append("\n");
    content.append(java_home_var.get_export_string().as_str());
    content.append("\n");
    content.append(path_var.get_export_string().as_str());
    content
}

/// A value that an `export` line holds and gives back unchanged: no line
/// break, carriage return or `=`, and no `export ` inside.
pub open spec fn plain_value(v: Seq<char>) -> bool {
    &&& forall|k: int| 0 <= k < v.len() ==> v[k] != '\n' && v[k] != '\r' && v[k] != '='
    &&& !seq_contains(v, "export "@)
}

/// A variable name that `export` lines can carry: no line break, carriage
/// return or `=`, and no `export ` inside.
pub open spec fn plain_name(n: Seq<char>) -> bool {
    &&& forall|k: int| 0 <= k < n.len() ==> n[k] != '=' && n[k] != '\n' && n[k] != '\r'
    &&& !seq_contains(n, "export "@)
}

/// `NAME=VALUE` holds no `export ` when neither part does: no occurrence can
/// cover the `=` between them.
proof fn lemma_assignment_has_no_export(name: Seq<char>, v: Seq<char>)
    requires
        plain_name(name),
        plain_value(v),
    ensures
        !seq_contains(name + "="@ + v, "export "@),
{
    reveal_strlit("export ");
    reveal_strlit("=");
    let p = "export "@;
    let w = name + "="@ + v;
    let n = name.len() as int;
    assert forall|i: int| !occurs_at(w, p, i) by {
        if occurs_at(w, p, i) {
            if i + 7 <= n {
                assert(name.subrange(i, i + 7) =~= w.subrange(i, i + 7));
                assert(occurs_at(name, p, i));
            } else if i <= n {
                assert(w[n] == '=');
                assert(w.subrange(i, i + 7)[n - i] == w[n]);
                assert(p[n - i] != '=');
            } else {
                assert(v.subrange(i - n - 1, i - n - 1 + 7) =~= w.subrange(i, i + 7));
                assert(occurs_at(v, p, i - n - 1));
            }
        }
    }
}

/// The two variable names that the start-up file edits handle are plain.
proof fn lemma_key_names_plain()
    ensures
        plain_name("JAVA_HOME"@),
        plain_name("PATH"@),
{
    reveal_strlit("JAVA_HOME");
    reveal_strlit("PATH");
    reveal_strlit("export ");
    let p = "export "@;
    let e: Seq<char> = Seq::empty();
    assert forall|i: int| !occurs_at(e, p, i) by {}
    lemma_not_contains_concat("JAVA_HOME"@, e, p);
    lemma_not_contains_concat("PATH"@, e, p);
    assert("JAVA_HOME"@ + e =~= "JAVA_HOME"@);
    assert("PATH"@ + e =~= "PATH"@);
}

/// The value found in lines that follow lines where none is found is the
/// value found in those later lines.
pub proof fn lemma_var_in_lines_concat(a: Seq<Seq<char>>, b: Seq<Seq<char>>, name: Seq<char>)
    ensures
        var_in_lines(a + b, name) == (if var_in_lines(a, name) is Some {
            var_in_lines(a, name)
        } else {
            var_in_lines(b, name)
        }),
    decreases a.len(),
{
    if a.len() > 0 {
        assert((a + b)[0] == a[0]);
        assert((a + b).drop_first() =~= a.drop_first() + b);
        lemma_var_in_lines_concat(a.drop_first(), b, name);
    } else {
        assert(a + b =~= b);
    }
}

/// No value is found in lines that do not mention `export NAME`.
pub proof fn lemma_var_in_lines_none(ls: Seq<Seq<char>>, name: Seq<char>)
    requires
        forall|k: int| 0 <= k < ls.len() ==> !seq_contains(#[trigger] ls[k], "export "@ + name),
    ensures
        var_in_lines(ls, name) is None,
    decreases ls.len(),
{
    if ls.len() > 0 {
        assert forall|k: int| 0 <= k < ls.drop_first().len() implies !seq_contains(
            #[trigger] ls.drop_first()[k],
            "export "@ + name,
        ) by {
            assert(ls.drop_first()[k] == ls[k + 1]);
        }
        lemma_var_in_lines_none(ls.drop_first(), name);
    }
}

/// The line `export NAME=VALUE` gives back `VALUE` for `NAME`.
proof fn lemma_export_line_value(name: Seq<char>, v: Seq<char>)
    requires
        plain_name(name),
        plain_value(v),
    ensures
        var_in_lines(seq![export_line((name, v))], name) == Some(v),
{
    reveal_strlit("export ");
    reveal_strlit("=");
    let p = "export "@;
    let w = name + "="@ + v;
    let l = export_line((name, v));
    assert(l =~= p + w);
    // the line mentions `export NAME`
    assert(l.subrange(0, (p + name).len() as int) =~= p + name);
    assert(occurs_at(l, p + name, 0));
    // deleting `export ` leaves `NAME=VALUE`
    lemma_assignment_has_no_export(name, v);
    lemma_replace_prefix(p, w, Seq::empty());
    lemma_replace_absent(w, p, Seq::empty());
    assert(Seq::<char>::empty() + w =~= w);
    // the second `=`-separated field is the value
    assert forall|k: int| 0 <= k < name.len() implies w[k] != '=' by {
        assert(w[k] == name[k]);
    }
    lemma_char_pos_at(w, '=', name.len() as int);
    assert(w.skip(name.len() + 1int) =~= v);
    lemma_char_pos_at(v, '=', v.len() as int);
    assert(v.take(v.len() as int) =~= v);
    assert(seq_second_field(w, '=') == Some(v));
    assert(seq![l].drop_first() =~= Seq::<Seq<char>>::empty());
}

/// The line `export NAME=VALUE` holds no line break and does not end with a
/// carriage return.
proof fn lemma_export_line_one_line(name: Seq<char>, v: Seq<char>)
    requires
        plain_name(name),
        plain_value(v),
    ensures
        forall|k: int| 0 <= k < export_line((name, v)).len() ==> export_line((name, v))[k] != '\n',
        strip_cr(export_line((name, v))) == export_line((name, v)),
{
    reveal_strlit("export ");
    reveal_strlit("=");
    let l = export_line((name, v));
    assert forall|k: int| 0 <= k < l.len() implies l[k] != '\n' by {
        if k >= 8 + name.len() {
            assert(l[k] == v[k - 8 - name.len()]);
        } else if k >= 7 && k < 7 + name.len() {
            assert(l[k] == name[k - 7]);
        }
    }
    if v.len() > 0 {
        assert(l.last() == v.last());
    }
}

/// The line `export NAME=VALUE` mentions no `export OTHER` whose first
/// letter differs from that of `NAME`.
proof fn lemma_export_line_no_other(name: Seq<char>, v: Seq<char>)
    requires
        name.len() > 0,
        plain_name(name),
        plain_value(v),
    ensures
        forall|other: Seq<char>|
            other.len() > 0 && other[0] != name[0] ==> !seq_contains(
                export_line((name, v)),
                #[trigger] ("export "@ + other),
            ),
{
    reveal_strlit("export ");
    reveal_strlit("=");
    let p = "export "@;
    let w = name + "="@ + v;
    let l = export_line((name, v));
    assert(l =~= p + w);
    lemma_assignment_has_no_export(name, v);
    assert forall|other: Seq<char>|
        other.len() > 0 && other[0] != name[0] implies !seq_contains(l, #[trigger] (p + other)) by {
        assert forall|i: int| !occurs_at(l, p + other, i) by {
            if occurs_at(l, p + other, i) {
                let q = p + other;
                assert(l.subrange(i, i + q.len())[0] == l[i]);
                if i == 0 {
                    assert(l.subrange(i, i + q.len())[7] == l[7]);
                    assert(l[7] == name[0]);
                    assert(q[7] == other[0]);
                } else if i < 7 {
                    assert(l[i] == p[i]);
                } else {
                    assert(l.subrange(i, i + 7) =~= q.subrange(0, 7));
                    assert(q.subrange(0, 7) =~= p);
                    assert(w.subrange(i - 7, i - 7 + 7) =~= l.subrange(i, i + 7));
                    assert(occurs_at(w, p, i - 7));
                }
            }
        }
    }
}

/// The line `export NAME=VALUE` gives back `VALUE` for `NAME`, is one line,
/// and mentions no `export OTHER` whose first letter differs.
pub proof fn lemma_export_line_reads_back(name: Seq<char>, v: Seq<char>)
    requires
        plain_name(name),
        plain_value(v),
    ensures
        var_in_lines(seq![export_line((name, v))], name) == Some(v),
        forall|k: int| 0 <= k < export_line((name, v)).len() ==> export_line((name, v))[k] != '\n',
        strip_cr(export_line((name, v))) == export_line((name, v)),
        forall|other: Seq<char>|
            other.len() > 0 && name.len() > 0 && other[0] != name[0] ==> !seq_contains(
                export_line((name, v)),
                #[trigger] ("export "@ + other),
            ),
{
    lemma_export_line_value(name, v);
    lemma_export_line_one_line(name, v);
    if name.len() > 0 {
        lemma_export_line_no_other(name, v);
    }
}

/// What selecting a Java version writes is what the next start reads: in
/// the start-up file text written by `set_java_home`, the `JAVA_HOME` and
/// `PATH` exports give back the values just set, provided the rest of the
/// text exports neither and the values are plain.
pub proof fn lemma_set_then_read_back(content: Seq<char>, m: Seq<(Seq<char>, Seq<char>)>, java_path: Seq<char>)
    requires
        name_index(m, "PATH"@) >= 0,
        !seq_contains(content, "export JAVA_HOME"@),
        !seq_contains(content, "export PATH"@),
        plain_value(java_home_entry(java_path).1),
        plain_value(path_with_java_home(m[name_index(m, "PATH"@)].1)),
    ensures
        var_value(content_after_set(content, m, java_path), "JAVA_HOME"@) == Some(java_home_entry(java_path).1),
        var_value(content_after_set(content, m, java_path), "PATH"@) == Some(
            path_with_java_home(m[name_index(m, "PATH"@)].1),
        ),
{
    reveal_strlit("JAVA_HOME");
    reveal_strlit("PATH");
    reveal_strlit("export JAVA_HOME");
    reveal_strlit("export PATH");
    reveal_strlit("export ");
    reveal_strlit("\n");
    lemma_first_index(m, false, "PATH"@);
    let jh = java_home_entry(java_path);
    let pe = m[name_index(m, "PATH"@)];
    let pv = path_with_java_home(pe.1);
    assert(pe.0 == "PATH"@);
    let l1 = export_line(jh);
    let l2 = export_line((pe.0, pv));
    lemma_key_names_plain();
    lemma_export_line_reads_back("JAVA_HOME"@, jh.1);
    lemma_export_line_reads_back("PATH"@, pv);
    let nl = seq!['\n'];
    let text = content_after_set(content, m, java_path);
    assert(text =~= content + nl + (l1 + nl + l2));
    lemma_lines_append(content, l1 + nl + l2);
    lemma_lines_append(l1, l2);
    lemma_lines_line_newline(l1);
    assert(l2.len() > 0);
    lemma_lines_single(l2);
    let head = seq_lines(content + nl);
    assert(seq_lines(text) =~= head + (seq![l1] + seq![l2]));
    assert("export JAVA_HOME"@ =~= "export "@ + "JAVA_HOME"@);
    assert("export PATH"@ =~= "export "@ + "PATH"@);
    assert(content + nl =~= content.push('\n'));
    lemma_not_contains_push(content, '\n', "export JAVA_HOME"@);
    lemma_not_contains_push(content, '\n', "export PATH"@);
    lemma_lines_not_contain(content + nl, "export JAVA_HOME"@);
    lemma_lines_not_contain(content + nl, "export PATH"@);
    lemma_var_in_lines_none(head, "JAVA_HOME"@);
    lemma_var_in_lines_none(head, "PATH"@);
    lemma_var_in_lines_concat(head, seq![l1] + seq![l2], "JAVA_HOME"@);
    lemma_var_in_lines_concat(head, seq![l1] + seq![l2], "PATH"@);
    lemma_var_in_lines_concat(seq![l1], seq![l2], "JAVA_HOME"@);
    lemma_var_in_lines_concat(seq![l1], seq![l2], "PATH"@);
    assert(!seq_contains(l1, "export "@ + "PATH"@));
    assert forall|k: int| 0 <= k < seq![l1].len() implies !seq_contains(#[trigger] seq![l1][k], "export "@ + "PATH"@) by {
    }
    lemma_var_in_lines_none(seq![l1], "PATH"@);
}

/// Selecting a Java version leaves the rest of the start-up file as it was:
/// taking the exports out of the text written by `set_java_home` gives back
/// `content`, provided it exports neither variable, does not end with a line
/// break, and the values are plain.
pub proof fn lemma_set_then_rest_unchanged(content: Seq<char>, m: Seq<(Seq<char>, Seq<char>)>, java_path: Seq<char>)
    requires
        name_index(m, "PATH"@) >= 0,
        !seq_contains(content, "export JAVA_HOME"@),
        !seq_contains(content, "export PATH"@),
        content.len() == 0 || content.last() != '\n',
        plain_value(java_home_entry(java_path).1),
        plain_value(path_with_java_home(m[name_index(m, "PATH"@)].1)),
    ensures
        remaining_content(content_after_set(content, m, java_path)) == content,
{
    reveal_strlit("JAVA_HOME");
    reveal_strlit("PATH");
    reveal_strlit("export JAVA_HOME");
    reveal_strlit("export PATH");
    reveal_strlit("export ");
    reveal_strlit("\n");
    lemma_set_then_read_back(content, m, java_path);
    lemma_first_index(m, false, "PATH"@);
    let jh = java_home_entry(java_path);
    let pe = m[name_index(m, "PATH"@)];
    let pv = path_with_java_home(pe.1);
    let l1 = export_line(jh);
    let l2 = export_line((pe.0, pv));
    lemma_key_names_plain();
    lemma_export_line_reads_back("JAVA_HOME"@, jh.1);
    lemma_export_line_reads_back("PATH"@, pv);
    let nl = seq!['\n'];
    let e: Seq<char> = Seq::empty();
    assert("\n"@ =~= nl);
    let text = content_after_set(content, m, java_path);
    assert(text =~= content + (nl + (l1 + (nl + l2))));
    assert(l1.len() >= 16 && l2.len() >= 11);
    assert(l1.take(16) =~= "export JAVA_HOME"@);
    assert(l2.take(11) =~= "export PATH"@);
    // the JAVA_HOME line goes
    assert forall|k: int| 0 <= k < l1.len() implies l1[k] != '\n' by {}
    lemma_no_straddle(content, '\n', l1 + (nl + l2), l1);
    lemma_replace_concat(content, nl + (l1 + (nl + l2)), l1, e);
    if seq_contains(content, l1) {
        lemma_contains_prefix(content, l1, 16);
    }
    lemma_replace_absent(content, l1, e);
    assert forall|i: int| 0 <= i < nl.len() && nl.len() < i + l1.len() implies !occurs_at(nl + (l1 + (nl + l2)), l1, i) by {
        assert((nl + (l1 + (nl + l2))).subrange(i, i + l1.len())[0] == '\n');
    }
    lemma_replace_concat(nl, l1 + (nl + l2), l1, e);
    lemma_replace_prefix(l1, nl + l2, e);
    assert(!seq_contains(l2, "export "@ + "JAVA_HOME"@));
    assert("export "@ + "JAVA_HOME"@ =~= "export JAVA_HOME"@);
    lemma_not_contains_concat(nl, l2, "export JAVA_HOME"@);
    if seq_contains(nl + l2, l1) {
        lemma_contains_prefix(nl + l2, l1, 16);
    }
    lemma_replace_absent(nl + l2, l1, e);
    let c1 = seq_replace(text, l1, e);
    assert(c1 =~= content + (nl + (nl + l2)));
    // the PATH line goes
    assert forall|k: int| 0 <= k < l2.len() implies l2[k] != '\n' by {}
    lemma_no_straddle(content, '\n', nl + l2, l2);
    lemma_replace_concat(content, nl + (nl + l2), l2, e);
    if seq_contains(content, l2) {
        lemma_contains_prefix(content, l2, 11);
    }
    lemma_replace_absent(content, l2, e);
    assert forall|i: int| 0 <= i < nl.len() && nl.len() < i + l2.len() implies !occurs_at(nl + (nl + l2), l2, i) by {
        assert((nl + (nl + l2)).subrange(i, i + l2.len())[0] == '\n');
    }
    lemma_replace_concat(nl, nl + l2, l2, e);
    assert forall|i: int| 0 <= i < nl.len() && nl.len() < i + l2.len() implies !occurs_at(nl + l2, l2, i) by {
        assert((nl + l2).subrange(i, i + l2.len())[0] == '\n');
    }
    lemma_replace_concat(nl, l2, l2, e);
    lemma_replace_prefix(l2, e, e);
    assert(l2 + e =~= l2);
    let c2 = seq_replace(c1, l2, e);
    assert(c2 =~= content + nl + nl);
    // trailing line breaks are dropped
    let t2 = content + nl + nl;
    assert(t2.skip(t2.len() - 1) =~= "\n"@);
    assert(t2.take(t2.len() - 1) =~= content + nl);
    let t1 = content + nl;
    assert(t1.skip(t1.len() - 1) =~= "\n"@);
    assert(t1.take(t1.len() - 1) =~= content);
    if content.len() > 0 {
        assert(content.skip(content.len() - 1)[0] == content.last());
    }
    assert(seq_trim_end(content, "\n"@) == content);
    assert(seq_trim_end(t1, "\n"@) == seq_trim_end(content, "\n"@));
    assert(seq_trim_end(t2, "\n"@) == seq_trim_end(t1, "\n"@));
    assert(pe.0 == "PATH"@);
    assert(without_export(text, "JAVA_HOME"@, var_value(text, "JAVA_HOME"@)) == c1);
    assert(without_export(c1, "PATH"@, var_value(text, "PATH"@)) == c2);
}

/// Selecting the same Java version twice is selecting it once: the second
/// call accepts the variables the first left, writes the same text, and
/// leaves those variables as they were, provided at most one JAVA_HOME is
/// among the known variables.
pub proof fn lemma_set_twice_is_set_once(content: Seq<char>, m: Seq<(Seq<char>, Seq<char>)>, java_path: Seq<char>)
    requires
        name_index(m, "PATH"@) >= 0,
        single_named(m, "JAVA_HOME"@),
    ensures
        globals_after_set(m, java_home_entry(java_path)).len() == m.len(),
        name_index(globals_after_set(m, java_home_entry(java_path)), "PATH"@) >= 0,
        content_after_set(content, globals_after_set(m, java_home_entry(java_path)), java_path)
            == content_after_set(content, m, java_path),
        globals_after_set(globals_after_set(m, java_home_entry(java_path)), java_home_entry(java_path))
            == globals_after_set(m, java_home_entry(java_path)),
{
    reveal_strlit("JAVA_HOME");
    reveal_strlit("PATH");
    assert("JAVA_HOME"@ != "PATH"@) by {
        assert("JAVA_HOME"@.len() != "PATH"@.len());
    }
    lemma_first_index(m, false, "JAVA_HOME"@);
    lemma_first_index(m, false, "PATH"@);
    let jh = java_home_entry(java_path);
    let k = name_index(m, "JAVA_HOME"@);
    let ip = name_index(m, "PATH"@);
    if k >= 0 {
        let r = m.remove(k);
        let m1 = r.push(jh);
        assert(ip != k);
        let ip1 = if ip < k { ip } else { ip - 1 };
        assert(m1[ip1] == m[ip]);
        assert forall|j: int| 0 <= j < ip1 implies key_of(#[trigger] m1[j], false) != "PATH"@ by {
            let j0 = if j < k { j } else { j + 1 };
            assert(m1[j] == m[j0]);
            assert(j0 < ip);
        }
        lemma_first_index_at(m1, false, "PATH"@, ip1);
        assert forall|j: int| 0 <= j < r.len() implies key_of(#[trigger] m1[j], false) != "JAVA_HOME"@ by {
            let j0 = if j < k { j } else { j + 1 };
            assert(m1[j] == m[j0]);
            if m[j0].0 == "JAVA_HOME"@ {
                assert(m[k].0 == "JAVA_HOME"@);
                assert(j0 == k);
            }
        }
        lemma_first_index_at(m1, false, "JAVA_HOME"@, r.len() as int);
        assert(m1.remove(r.len() as int).push(jh) =~= m1);
    }
}

/// Selecting a Java version always writes, after the given text and a line
/// break, the line `export JAVA_HOME=<path without trailing />/bin` and then,
/// as the very last line, `export PATH=<PATH value without :$JAVA_HOME>:$JAVA_HOME`,
/// whatever the given text already holds (an `export PATH` line included).
pub proof fn lemma_set_writes_both_exports(content: Seq<char>, m: Seq<(Seq<char>, Seq<char>)>, java_path: Seq<char>)
    requires
        name_index(m, "PATH"@) >= 0,
    ensures
        content_after_set(content, m, java_path) == content + "\n"@ + ("export JAVA_HOME="@ + seq_trim_end(
            java_path,
            "/"@,
        ) + "/bin"@) + "\n"@ + ("export PATH="@ + seq_replace(
            m[name_index(m, "PATH"@)].1,
            ":$JAVA_HOME"@,
            Seq::empty(),
        ) + ":$JAVA_HOME"@),
        starts_with(content_after_set(content, m, java_path), content + "\n"@),
        ends_with(
            content_after_set(content, m, java_path),
            "\n"@ + ("export PATH="@ + seq_replace(m[name_index(m, "PATH"@)].1, ":$JAVA_HOME"@, Seq::empty())
                + ":$JAVA_HOME"@),
        ),
        ends_with(content_after_set(content, m, java_path), ":$JAVA_HOME"@),
{
    reveal_strlit("PATH");
    reveal_strlit("JAVA_HOME");
    reveal_strlit("export ");
    reveal_strlit("=");
    reveal_strlit("export JAVA_HOME=");
    reveal_strlit("export PATH=");
    reveal_strlit(":$");
    reveal_strlit(":$JAVA_HOME");
    reveal_strlit("\n");
    lemma_first_index(m, false, "PATH"@);
    let pe = m[name_index(m, "PATH"@)];
    assert(pe.0 == "PATH"@);
    let t = content_after_set(content, m, java_path);
    let jl = "export JAVA_HOME="@ + seq_trim_end(java_path, "/"@) + "/bin"@;
    let pl = "export PATH="@ + seq_replace(pe.1, ":$JAVA_HOME"@, Seq::empty()) + ":$JAVA_HOME"@;
    assert(export_line(java_home_entry(java_path)) =~= jl);
    assert(":$"@ + "JAVA_HOME"@ =~= ":$JAVA_HOME"@);
    assert(export_line((pe.0, path_with_java_home(pe.1))) =~= pl);
    assert(t =~= content + "\n"@ + jl + "\n"@ + pl);
    assert(t.take((content + "\n"@).len() as int) =~= content + "\n"@);
    assert(t.skip(t.len() - ("\n"@ + pl).len()) =~= "\n"@ + pl);
    assert(t.skip(t.len() - ":$JAVA_HOME"@.len()) =~= ":$JAVA_HOME"@);
}

/// Loading a start-up file that exports `PATH` on its last line and nowhere
/// else, and no `JAVA_HOME`, records that `PATH` value and hands back the
/// rest of the text: the `PATH` export is taken out whether or not a
/// `JAVA_HOME` export was found.
pub proof fn lemma_extract_takes_out_path(rest: Seq<char>, p: Seq<char>)
    requires
        !seq_contains(rest, "export JAVA_HOME"@),
        !seq_contains(rest, "export PATH"@),
        rest.len() == 0 || rest.last() != '\n',
        plain_value(p),
    ensures
        var_value(rest + "\n"@ + export_line(("PATH"@, p)), "JAVA_HOME"@) is None,
        var_value(rest + "\n"@ + export_line(("PATH"@, p)), "PATH"@) == Some(p),
        remaining_content(rest + "\n"@ + export_line(("PATH"@, p))) == rest,
{
    reveal_strlit("JAVA_HOME");
    reveal_strlit("PATH");
    reveal_strlit("export JAVA_HOME");
    reveal_strlit("export PATH");
    reveal_strlit("export ");
    reveal_strlit("\n");
    lemma_key_names_plain();
    let l2 = export_line(("PATH"@, p));
    lemma_export_line_reads_back("PATH"@, p);
    let nl = seq!['\n'];
    let e: Seq<char> = Seq::empty();
    assert("\n"@ =~= nl);
    let text = rest + "\n"@ + l2;
    assert(text =~= rest + nl + l2);
    // its lines: those of the rest, then the PATH line
    lemma_lines_append(rest, l2);
    assert(l2.len() > 0);
    lemma_lines_single(l2);
    let head = seq_lines(rest + nl);
    assert(seq_lines(text) =~= head + seq![l2]);
    assert("export JAVA_HOME"@ =~= "export "@ + "JAVA_HOME"@);
    assert("export PATH"@ =~= "export "@ + "PATH"@);
    assert(rest + nl =~= rest.push('\n'));
    lemma_not_contains_push(rest, '\n', "export JAVA_HOME"@);
    lemma_not_contains_push(rest, '\n', "export PATH"@);
    lemma_lines_not_contain(rest + nl, "export JAVA_HOME"@);
    lemma_lines_not_contain(rest + nl, "export PATH"@);
    lemma_var_in_lines_none(head, "JAVA_HOME"@);
    lemma_var_in_lines_none(head, "PATH"@);
    lemma_var_in_lines_concat(head, seq![l2], "JAVA_HOME"@);
    lemma_var_in_lines_concat(head, seq![l2], "PATH"@);
    assert(!seq_contains(l2, "export "@ + "JAVA_HOME"@));
    assert forall|k: int| 0 <= k < seq![l2].len() implies !seq_contains(#[trigger] seq![l2][k], "export "@ + "JAVA_HOME"@) by {
    }
    lemma_var_in_lines_none(seq![l2], "JAVA_HOME"@);
    // the PATH line goes
    assert(l2.take(11) =~= "export PATH"@);
    assert forall|k: int| 0 <= k < l2.len() implies l2[k] != '\n' by {}
    lemma_no_straddle(rest, '\n', l2, l2);
    assert(text =~= rest + (nl + l2));
    lemma_replace_concat(rest, nl + l2, l2, e);
    if seq_contains(rest, l2) {
        lemma_contains_prefix(rest, l2, 11);
    }
    lemma_replace_absent(rest, l2, e);
    assert forall|i: int| 0 <= i < nl.len() && nl.len() < i + l2.len() implies !occurs_at(nl + l2, l2, i) by {
        assert((nl + l2).subrange(i, i + l2.len())[0] == '\n');
    }
    lemma_replace_concat(nl, l2, l2, e);
    lemma_replace_prefix(l2, e, e);
    assert(l2 + e =~= l2);
    let c2 = seq_replace(text, l2, e);
    assert(c2 =~= rest + nl);
    assert(without_export(text, "JAVA_HOME"@, var_value(text, "JAVA_HOME"@)) == text);
    assert(without_export(text, "PATH"@, var_value(text, "PATH"@)) == c2);
    let t1 = rest + nl;
    assert(t1.skip(t1.len() - 1) =~= "\n"@);
    assert(t1.take(t1.len() - 1) =~= rest);
    if rest.len() > 0 {
        assert(rest.skip(rest.len() - 1)[0] == rest.last());
    }
    assert(seq_trim_end(rest, "\n"@) == rest);
    assert(seq_trim_end(t1, "\n"@) == seq_trim_end(rest, "\n"@));
}

} // verus!
