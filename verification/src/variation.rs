//! The platform-specific decisions: which saved version is the current one,
//! how the version picker moves, and (on Windows) how the user's `Path`
//! value changes when another Java version is selected.

use vstd::prelude::*;
use crate::config::JAVA_HOME_KEY;
use crate::env_variable::{
    entries, get_java_version_by_path, get_java_version_index_by_name, key_of, lemma_first_index,
    lemma_first_index_at, name_index, path_index, single_named, unique_names, EnvVariable,
};
use crate::file_utils::{found_entry, globals_after_set, java_home_entry, var_value};
use crate::menu_command::{move_selection, moved_selection, MenuKey};
use crate::text::{
    contains, lemma_contains_after_char, lemma_contains_piece, lemma_contains_prefix,
    lemma_not_contains_led, lemma_not_contains_sep, lemma_replace_absent, lemma_replace_concat,
    lemma_replace_prefix, lemma_trim_end_appended, lemma_trim_end_prefix, occurs_at, replace,
    seq_contains, seq_replace, seq_trim_end, trim_end_matches,
};

verus! {

/// Linux: Java is selected by editing the shell start-up file.
pub struct LinuxVariation();

/// Windows: Java is selected by editing the user environment in the registry.
pub struct WinVariation();

/// Which saved version the current `JAVA_HOME` points at.
pub enum CurrentVersion {
    /// `JAVA_HOME` is not set.
    NotSet,
    /// The saved version whose path `JAVA_HOME` names.
    Current(EnvVariable),
    /// `JAVA_HOME` names no saved version.
    Unlisted,
}

/// What the version picker does after a key press.
#[derive(PartialEq, Eq, Structural, Clone, Copy, Debug)]
pub enum SelectionDecision {
    /// Keep showing the picker.
    Nothing,
    /// Select the version under the cursor.
    Choose,
}

/// The outcome of looking the JAVA_HOME path `home`, stripped of trailing
/// `suffix`, up among the saved `versions`.
pub open spec fn current_for_home(
    r: CurrentVersion,
    home: Option<Seq<char>>,
    suffix: Seq<char>,
    versions: Seq<(Seq<char>, Seq<char>)>,
) -> bool {
    match home {
        None => r is NotSet,
        Some(h) => {
            let j = path_index(versions, seq_trim_end(h, suffix));
            if j >= 0 {
                r matches CurrentVersion::Current(e) && e@ == versions[j]
            } else {
                r is Unlisted
            }
        },
    }
}

/// The JAVA_HOME value among the known variables, if there is one.
pub open spec fn java_home_value(globals: Seq<(Seq<char>, Seq<char>)>) -> Option<Seq<char>> {
    let i = name_index(globals, "JAVA_HOME"@);
    if i >= 0 {
        Some(globals[i].1)
    } else {
        None
    }
}

/// The picker's answer to a key press: the new selection and what to do.
pub open spec fn picker_next(selected: i32, count: usize, key: MenuKey) -> (i32, SelectionDecision) {
    match key {
        MenuKey::Up | MenuKey::Down => (moved_selection(selected as int, count as int, key) as i32, SelectionDecision::Nothing),
        MenuKey::Enter => (selected, SelectionDecision::Choose),
        _ => (selected, SelectionDecision::Nothing),
    }
}

/// The Windows `Path` value after selecting the installation at `new_home`,
/// when JAVA_HOME was `old_home`: every `;OLD\bin`, then `OLD\bin;`, then
/// `OLD\bin` is deleted, trailing `;` dropped, and `;NEW\bin` appended unless
/// `NEW\bin` already occurs. Without an old JAVA_HOME the value stays.
pub open spec fn windows_path_after(value: Seq<char>, old_home: Option<Seq<char>>, new_home: Seq<char>) -> Seq<char> {
    match old_home {
        None => value,
        Some(o) => {
            let b = o + "\\bin"@;
            let v1 = seq_replace(value, ";"@ + b, Seq::empty());
            let v2 = seq_replace(v1, b + ";"@, Seq::empty());
            let v3 = seq_replace(v2, b, Seq::empty());
            let v4 = seq_trim_end(v3, ";"@);
            let nb = new_home + "\\bin"@;
            if seq_contains(v4, nb) {
                v4
            } else {
                v4 + ";"@ + nb
            }
        },
    }
}

/// Looks the JAVA_HOME path `home`, stripped of trailing `suffix`, up among the saved versions.
fn lookup_home(home: &str, suffix: &str, versions: &Vec<EnvVariable>) -> (r: CurrentVersion)
    requires
        suffix@.len() > 0,
    ensures
        current_for_home(r, Some(home@), suffix@, entries(versions@)),
{
    let trimmed = trim_end_matches(home, suffix);
    match get_java_version_by_path(trimmed.as_str(), versions) {
        Some(v) => CurrentVersion::Current(v),
        None => CurrentVersion::Unlisted,
    }
}

impl LinuxVariation {
    /// The saved version that the JAVA_HOME among the variables of the shell
    /// start-up file points at, its trailing `/bin` dropped.
    pub fn current_version(&self, globals: &Vec<EnvVariable>, versions: &Vec<EnvVariable>) -> (r: CurrentVersion)
        requires
            globals@.len() <= i32::MAX,
        ensures
            current_for_home(r, java_home_value(entries(globals@)), "/bin"@, entries(versions@)),
    {
        proof {
            reveal_strlit("JAVA_HOME");
            reveal_strlit("/bin");
            lemma_first_index(entries(globals@), false, "JAVA_HOME"@);
        }
        let index = get_java_version_index_by_name(JAVA_HOME_KEY, globals);
        if index == -1 {
            return CurrentVersion::NotSet;
        }
        let java_home = &globals[index as usize];
        lookup_home(java_home.get_path(), "/bin", versions)
    }

    /// The picker's answer to a key press among `count` saved versions.
    pub fn version_selection_step(&self, selected: i32, count: usize, key: MenuKey) -> (r: (i32, SelectionDecision))
        requires
            i32::MIN < selected < i32::MAX,
            count <= i32::MAX,
        ensures
            r == picker_next(selected, count, key),
    {
        match key {
            MenuKey::Up | MenuKey::Down => (move_selection(selected, count as i32, key), SelectionDecision::Nothing),
            MenuKey::Enter => (selected, SelectionDecision::Choose),
            _ => (selected, SelectionDecision::Nothing),
        }
    }
}

impl WinVariation {
    /// The saved version that the JAVA_HOME value read from the user
    /// environment points at, its trailing `\bin` dropped.
    pub fn current_version(&self, java_home: Option<&str>, versions: &Vec<EnvVariable>) -> (r: CurrentVersion)
        ensures
            current_for_home(
                r,
                match java_home {
                    Some(h) => Some(h@),
                    None => None,
                },
                "\\bin"@,
                entries(versions@),
            ),
    {
        proof {
            reveal_strlit("\\bin");
        }
        match java_home {
            None => CurrentVersion::NotSet,
            Some(h) => lookup_home(h, "\\bin", versions),
        }
    }

    /// The picker's answer to a key press among `count` saved versions; a
    /// key release changes nothing.
    pub fn version_selection_step(&self, selected: i32, count: usize, key: MenuKey, released: bool) -> (r: (i32, SelectionDecision))
        requires
            i32::MIN < selected < i32::MAX,
            count <= i32::MAX,
        ensures
            released ==> r == (selected, SelectionDecision::Nothing),
            !released ==> r == picker_next(selected, count, key),
    {
        if released {
            return (selected, SelectionDecision::Nothing);
        }
        match key {
            MenuKey::Up | MenuKey::Down => (move_selection(selected, count as i32, key), SelectionDecision::Nothing),
            MenuKey::Enter => (selected, SelectionDecision::Choose),
            _ => (selected, SelectionDecision::Nothing),
        }
    }

    /// The new `Path` value of the user environment (see `windows_path_after`).
    pub fn updated_path_value(&self, path_value: &str, old_java_home: Option<&str>, new_java_path: &str) -> (r: String)
        ensures
            r@ == windows_path_after(
                path_value@,
                match old_java_home {
                    Some(h) => Some(h@),
                    None => None,
                },
                new_java_path@,
            ),
    {
        proof {
            reveal_strlit("\\bin");
            reveal_strlit(";");
            reveal_strlit("");
            assert(""@ =~= Seq::<char>::empty());
        }
        match old_java_home {
            None => String::from_str(path_value),
            Some(old) => {
                let mut bin = String::from_str(old);
                bin.append("\\bin");
                let mut with_sep_before = String::from_str(";");
                with_sep_before.append(bin.as_str());
                let mut with_sep_after = String::from_str(bin.as_str());
                with_sep_after.append(";");
                let v1 = replace(path_value, with_sep_before.as_str(), "");
                let v2 = replace(v1.as_str(), with_sep_after.as_str(), "");
                let v3 = replace(v2.as_str(), bin.as_str(), "");
                let mut v4 = trim_end_matches(v3.as_str(), ";");
                let mut new_bin = String::from_str(new_java_path);
                new_bin.append("\\bin");
                if !contains(v4.as_str(), new_bin.as_str()) {
                    v4.append(";");
                    v4.append(new_bin.as_str());
                }
                v4
            },
        }
    }
}

/// After selecting a version on Windows, its `bin` directory is on the `Path`.
pub proof fn lemma_windows_path_has_new_bin(value: Seq<char>, old_home: Seq<char>, new_home: Seq<char>)
    ensures
        seq_contains(windows_path_after(value, Some(old_home), new_home), new_home + "\\bin"@),
{
    let r = windows_path_after(value, Some(old_home), new_home);
    let nb = new_home + "\\bin"@;
    if !seq_contains(r, nb) {
        let b = old_home + "\\bin"@;
        let v4 = seq_trim_end(
            seq_replace(seq_replace(seq_replace(value, ";"@ + b, Seq::empty()), b + ";"@, Seq::empty()), b, Seq::empty()),
            ";"@,
        );
        let start = v4.len() + ";"@.len();
        assert(r.subrange(start as int, start + nb.len() as int) =~= nb);
        assert(crate::text::occurs_at(r, nb, start as int));
    }
}

/// Key presses keep the picker's selection on one of the saved versions.
pub proof fn lemma_picker_selection_in_range(selected: i32, count: usize, key: MenuKey)
    requires
        0 <= selected < count,
        count <= i32::MAX,
    ensures
        0 <= picker_next(selected, count, key).0 < count,
{
}

/// The variables read from a start-up file into an empty list have distinct names.
pub proof fn lemma_extracted_names_unique(content: Seq<char>)
    ensures
        unique_names(
            found_entry("JAVA_HOME"@, var_value(content, "JAVA_HOME"@)) + found_entry(
                "PATH"@,
                var_value(content, "PATH"@),
            ),
        ),
{
    reveal_strlit("JAVA_HOME");
    reveal_strlit("PATH");
    assert("JAVA_HOME"@ != "PATH"@) by {
        assert("JAVA_HOME"@.len() != "PATH"@.len());
    }
}

/// Selecting a Java version keeps the names of the known variables distinct.
pub proof fn lemma_set_keeps_names_unique(m: Seq<(Seq<char>, Seq<char>)>, java_path: Seq<char>)
    requires
        unique_names(m),
    ensures
        unique_names(globals_after_set(m, java_home_entry(java_path))),
{
    lemma_first_index(m, false, "JAVA_HOME"@);
    let k = name_index(m, "JAVA_HOME"@);
    if k >= 0 {
        let r = m.remove(k);
        let g = r.push(java_home_entry(java_path));
        assert forall|a: int, b: int| 0 <= a < g.len() && 0 <= b < g.len() && a != b implies g[a].0 != g[b].0 by {
            if a < r.len() {
                let a0 = if a < k { a } else { a + 1 };
                assert(r[a] == m[a0]);
                assert(a0 != k);
            }
            if b < r.len() {
                let b0 = if b < k { b } else { b + 1 };
                assert(r[b] == m[b0]);
                assert(b0 != k);
            }
        }
    }
}

/// Once a saved version is selected, it is the one reported as current: the
/// new JAVA_HOME, stripped of `/bin`, is the version's path. This holds when
/// exactly one JAVA_HOME is among the known variables (with none they are
/// left as they were), and the path ends neither in `/` nor in `/bin`.
pub proof fn lemma_selected_is_current(
    m: Seq<(Seq<char>, Seq<char>)>,
    versions: Seq<(Seq<char>, Seq<char>)>,
    path: Seq<char>,
    r: CurrentVersion,
)
    requires
        single_named(m, "JAVA_HOME"@),
        name_index(m, "JAVA_HOME"@) >= 0,
        seq_trim_end(path, "/"@) == path,
        seq_trim_end(path, "/bin"@) == path,
        path_index(versions, path) >= 0,
        current_for_home(r, java_home_value(globals_after_set(m, java_home_entry(path))), "/bin"@, versions),
    ensures
        r matches CurrentVersion::Current(e) && e@ == versions[path_index(versions, path)],
        r matches CurrentVersion::Current(e) && e@.1 == path,
{
    reveal_strlit("JAVA_HOME");
    reveal_strlit("/bin");
    lemma_first_index(m, false, "JAVA_HOME"@);
    lemma_first_index(versions, true, path);
    let k = name_index(m, "JAVA_HOME"@);
    let jh = java_home_entry(path);
    let r0 = m.remove(k);
    let g = r0.push(jh);
    assert forall|j: int| 0 <= j < r0.len() implies key_of(#[trigger] g[j], false) != "JAVA_HOME"@ by {
        let j0 = if j < k { j } else { j + 1 };
        assert(g[j] == m[j0]);
        if m[j0].0 == "JAVA_HOME"@ {
            assert(m[k].0 == "JAVA_HOME"@);
            assert(j0 == k);
        }
    }
    lemma_first_index_at(g, false, "JAVA_HOME"@, r0.len() as int);
    assert(java_home_value(g) == Some(path + "/bin"@));
    lemma_trim_end_appended(path, "/bin"@);
}

/// A JAVA_HOME that names a saved path, once its trailing suffix is dropped,
/// reports the first saved version with that path as current.
pub proof fn lemma_current_when_saved(
    r: CurrentVersion,
    home: Seq<char>,
    suffix: Seq<char>,
    versions: Seq<(Seq<char>, Seq<char>)>,
)
    requires
        current_for_home(r, Some(home), suffix, versions),
        path_index(versions, seq_trim_end(home, suffix)) >= 0,
    ensures
        r matches CurrentVersion::Current(e) && e@.1 == seq_trim_end(home, suffix),
        r matches CurrentVersion::Current(e) && e@ == versions[path_index(versions, seq_trim_end(home, suffix))],
{
    lemma_first_index(versions, true, seq_trim_end(home, suffix));
}

/// A JAVA_HOME that is exactly the path of a saved version, and does not
/// end with the suffix, reports a saved version with that path as current.
pub proof fn lemma_exact_home_is_current(
    r: CurrentVersion,
    home: Seq<char>,
    suffix: Seq<char>,
    versions: Seq<(Seq<char>, Seq<char>)>,
    i: int,
)
    requires
        current_for_home(r, Some(home), suffix, versions),
        0 <= i < versions.len(),
        versions[i].1 == home,
        !(suffix.len() > 0 && suffix.len() <= home.len() && home.skip(home.len() - suffix.len()) == suffix),
    ensures
        r matches CurrentVersion::Current(e) && e@.1 == home,
{
    assert(seq_trim_end(home, suffix) == home);
    lemma_first_index(versions, true, home);
    assert(key_of(versions[i], true) == home);
}

/// Whether or not JAVA_HOME ends with the suffix, the same version is reported:
/// looking up `home` and `home` followed by the suffix give the same answer.
pub proof fn lemma_current_ignores_suffix(
    r1: CurrentVersion,
    r2: CurrentVersion,
    home: Seq<char>,
    suffix: Seq<char>,
    versions: Seq<(Seq<char>, Seq<char>)>,
)
    requires
        suffix.len() > 0,
        current_for_home(r1, Some(home), suffix, versions),
        current_for_home(r2, Some(home + suffix), suffix, versions),
    ensures
        r1 is Current <==> r2 is Current,
        r1 is Unlisted <==> r2 is Unlisted,
        r1 matches CurrentVersion::Current(e1) ==> (r2 matches CurrentVersion::Current(e2) && e1@ == e2@),
{
    lemma_trim_end_appended(home, suffix);
}

/// Text without `b` holds neither `;b` nor `b;`.
proof fn lemma_no_bin_no_entry(z: Seq<char>, b: Seq<char>)
    requires
        !seq_contains(z, b),
    ensures
        !seq_contains(z, seq![';'] + b),
        !seq_contains(z, b + seq![';']),
{
    if seq_contains(z, seq![';'] + b) {
        lemma_contains_after_char(z, ';', b);
    }
    if seq_contains(z, b + seq![';']) {
        assert((b + seq![';']).take(b.len() as int) =~= b);
        lemma_contains_prefix(z, b + seq![';'], b.len() as int);
    }
}

/// The three deletions leave no `b` in a `Path` that holds `b` once, as a
/// whole `;`-separated entry (`x` ends with `;` or is empty, `y` starts with
/// `;` or is empty, and neither holds `b`).
proof fn lemma_windows_deletions_remove_bin(x: Seq<char>, y: Seq<char>, b: Seq<char>)
    requires
        b.len() > 0,
        forall|k: int| 0 <= k < b.len() ==> b[k] != ';',
        x.len() == 0 || x.last() == ';',
        y.len() == 0 || y[0] == ';',
        !seq_contains(x, b),
        !seq_contains(y, b),
    ensures
        !seq_contains(
            seq_replace(
                seq_replace(seq_replace(x + b + y, seq![';'] + b, Seq::empty()), b + seq![';'], Seq::empty()),
                b,
                Seq::empty(),
            ),
            b,
        ),
{
    let sc = seq![';'];
    let q1 = sc + b;
    let q2 = b + sc;
    let e: Seq<char> = Seq::empty();
    let value = x + b + y;
    assert(seq_replace(e, b, e) == e);
    assert(seq_replace(e, q1, e) == e);
    assert(seq_replace(e, q2, e) == e);
    assert forall|i: int| !occurs_at(e, b, i) by {}
    // the part after the entry, without its leading `;`
    let y1 = if y.len() > 0 { y.skip(1) } else { e };
    if y.len() > 0 {
        assert(y =~= sc + y1);
        if seq_contains(y1, b) {
            assert(y.subrange(1, y.len() as int) =~= y1);
            lemma_contains_piece(y, 1, y1.len() as int, b);
        }
    }
    // the part before the entry, without its trailing `;`
    let x1 = if x.len() > 0 { x.drop_last() } else { e };
    if x.len() > 0 {
        assert(x =~= x1 + sc);
        if seq_contains(x1, b) {
            assert(x.subrange(0, x1.len() as int) =~= x1);
            lemma_contains_piece(x, 0, x1.len() as int, b);
        }
    }
    lemma_no_bin_no_entry(x1, b);
    lemma_no_bin_no_entry(y1, b);
    lemma_not_contains_led(';', y1, b);
    // deleting `b` once it stands alone leaves nothing
    lemma_replace_prefix(b, e, e);
    assert(b + e =~= b);
    let v3 = seq_replace(seq_replace(seq_replace(value, q1, e), q2, e), b, e);
    if x.len() == 0 && y.len() == 0 {
        assert(value =~= b);
        assert(seq_replace(b, q1, e) == b);
        assert(seq_replace(b, q2, e) == b);
        assert(v3 == e);
    } else if x.len() == 0 {
        assert(value =~= b + (sc + y1));
        assert forall|i: int| 0 <= i < b.len() && b.len() < i + q1.len() implies !occurs_at(b + (sc + y1), q1, i) by {
            if occurs_at(b + (sc + y1), q1, i) {
                assert((b + (sc + y1)).subrange(i, i + q1.len())[0] == b[i]);
            }
        }
        lemma_replace_concat(b, sc + y1, q1, e);
        assert(seq_replace(b, q1, e) == b);
        lemma_replace_absent(sc + y1, q1, e);
        assert(b + (sc + y1) =~= q2 + y1);
        lemma_replace_prefix(q2, y1, e);
        lemma_replace_absent(y1, q2, e);
        assert(e + y1 =~= y1);
        lemma_replace_absent(y1, b, e);
        assert(v3 == y1);
    } else {
        let tail = if y.len() > 0 { sc + y1 } else { e };
        assert(value =~= x1 + (q1 + tail));
        assert forall|i: int| 0 <= i < x1.len() && x1.len() < i + q1.len() implies !occurs_at(x1 + (q1 + tail), q1, i) by {
            if occurs_at(x1 + (q1 + tail), q1, i) {
                let k = x1.len() - i;
                assert((x1 + (q1 + tail)).subrange(i, i + q1.len())[k] == (x1 + (q1 + tail))[x1.len() as int]);
                assert(q1[k] == b[k - 1]);
            }
        }
        lemma_replace_concat(x1, q1 + tail, q1, e);
        lemma_replace_absent(x1, q1, e);
        lemma_replace_prefix(q1, tail, e);
        if y.len() > 0 {
            lemma_replace_absent(tail, q1, e);
            lemma_not_contains_sep(x1, ';', y1, b);
            assert(x1 + (e + tail) =~= x1 + sc + y1);
        } else {
            assert(x1 + (e + tail) =~= x1);
        }
        let v1 = x1 + (e + tail);
        assert(seq_replace(value, q1, e) == v1);
        assert(!seq_contains(v1, b));
        lemma_no_bin_no_entry(v1, b);
        lemma_replace_absent(v1, q2, e);
        lemma_replace_absent(v1, b, e);
        assert(v3 == v1);
    }
}

/// On Windows, a `Path` that holds the old `bin` directory as one whole
/// entry no longer holds it after another version is selected, wherever
/// that entry stood (first, last, in between, or alone), provided the other
/// entries do not hold it, the old home holds no `;`, and the new `bin`
/// directory does not hold the old one.
pub proof fn lemma_windows_old_bin_removed(x: Seq<char>, y: Seq<char>, old_home: Seq<char>, new_home: Seq<char>)
    requires
        forall|k: int| 0 <= k < old_home.len() ==> old_home[k] != ';',
        x.len() == 0 || x.last() == ';',
        y.len() == 0 || y[0] == ';',
        !seq_contains(x, old_home + "\\bin"@),
        !seq_contains(y, old_home + "\\bin"@),
        !seq_contains(new_home + "\\bin"@, old_home + "\\bin"@),
    ensures
        !seq_contains(
            windows_path_after(x + (old_home + "\\bin"@) + y, Some(old_home), new_home),
            old_home + "\\bin"@,
        ),
{
    reveal_strlit("\\bin");
    reveal_strlit(";");
    let b = old_home + "\\bin"@;
    let sc = seq![';'];
    let e: Seq<char> = Seq::empty();
    assert(";"@ =~= sc);
    assert forall|k: int| 0 <= k < b.len() implies b[k] != ';' by {
        if k >= old_home.len() {
            assert(b[k] == "\\bin"@[k - old_home.len()]);
        }
    }
    lemma_windows_deletions_remove_bin(x, y, b);
    let v3 = seq_replace(seq_replace(seq_replace(x + b + y, sc + b, e), b + sc, e), b, e);
    let v4 = seq_trim_end(v3, sc);
    lemma_trim_end_prefix(v3, sc);
    if seq_contains(v4, b) {
        assert(v3.subrange(0, v4.len() as int) =~= v4);
        lemma_contains_piece(v3, 0, v4.len() as int, b);
    }
    let nb = new_home + "\\bin"@;
    if !seq_contains(v4, nb) {
        lemma_not_contains_sep(v4, ';', nb, b);
        assert(v4 + ";"@ + nb =~= v4 + sc + nb);
    }
}

} // verus!
