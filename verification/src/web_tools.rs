//! The browser tools' own logic: how git status rows are reported, how OPFS
//! paths are split into directories and a file name, and what each tool
//! answers where the browser is not available.
use vstd::prelude::*;
use vstd::string::*;
use crate::text::{to_chars, from_chars, trim, trim_bounds, i64_to_string, dec_int, find_from, first_occurrence, occurs_at, lemma_first_occurrence};

verus! {

/// The error of every git operation where isomorphic-git is missing.
pub open spec fn git_unavailable() -> Seq<char> {
    "isomorphic-git unavailable on native"@
}

/// The error of every OPFS operation outside the browser.
pub open spec fn opfs_unavailable() -> Seq<char> {
    "OPFS unavailable on native"@
}

/// The error of every shell command outside the browser.
pub open spec fn shell_unavailable() -> Seq<char> {
    "WebContainers unavailable on native"@
}

/// Cloning a repository outside the browser: isomorphic-git is unavailable.
pub fn clone_repo(url: &str, dir: &str) -> (r: Result<(), String>)
    ensures
        r matches Err(e) && e@ == git_unavailable(),
{
    Err("isomorphic-git unavailable on native".to_string())
}

/// Committing outside the browser: isomorphic-git is unavailable.
pub fn commit_all(msg: &str) -> (r: Result<(), String>)
    ensures
        r matches Err(e) && e@ == git_unavailable(),
{
    Err("isomorphic-git unavailable on native".to_string())
}

/// The repository status outside the browser: isomorphic-git is unavailable.
pub fn status() -> (r: Result<Vec<String>, String>)
    ensures
        r matches Err(e) && e@ == git_unavailable(),
{
    Err("isomorphic-git unavailable on native".to_string())
}

/// Pushing outside the browser: isomorphic-git is unavailable.
pub fn push(remote: &str) -> (r: Result<(), String>)
    ensures
        r matches Err(e) && e@ == git_unavailable(),
{
    Err("isomorphic-git unavailable on native".to_string())
}

/// Reading a file outside the browser: OPFS is unavailable.
pub fn read_file(path: &str) -> (r: Result<String, String>)
    ensures
        r matches Err(e) && e@ == opfs_unavailable(),
{
    Err("OPFS unavailable on native".to_string())
}

/// Writing a file outside the browser: OPFS is unavailable.
pub fn write_file(path: &str, content: &str) -> (r: Result<(), String>)
    ensures
        r matches Err(e) && e@ == opfs_unavailable(),
{
    Err("OPFS unavailable on native".to_string())
}

/// Listing a directory outside the browser: OPFS is unavailable.
pub fn list_dir(path: &str) -> (r: Result<Vec<String>, String>)
    ensures
        r matches Err(e) && e@ == opfs_unavailable(),
{
    Err("OPFS unavailable on native".to_string())
}

/// Deleting a file outside the browser: OPFS is unavailable.
pub fn delete_file(path: &str) -> (r: Result<(), String>)
    ensures
        r matches Err(e) && e@ == opfs_unavailable(),
{
    Err("OPFS unavailable on native".to_string())
}

/// Whether WebContainers can run commands: never outside the browser.
pub fn is_available() -> (r: bool)
    ensures
        !r,
{
    false
}

/// Running a command outside the browser: WebContainers are unavailable.
pub fn run_cmd(cmd: &str) -> (r: Result<String, String>)
    ensures
        r matches Err(e) && e@ == shell_unavailable(),
{
    Err("WebContainers unavailable on native".to_string())
}

/// Running a command in a directory outside the browser: WebContainers are unavailable.
pub fn run_cmd_in(workdir: &str, cmd: &str) -> (r: Result<String, String>)
    ensures
        r matches Err(e) && e@ == shell_unavailable(),
{
    Err("WebContainers unavailable on native".to_string())
}

/// The status line of a file from its `statusMatrix` row (head, workdir,
/// stage); none for a file that is unchanged.
pub open spec fn status_line_spec(path: Seq<char>, head: i32, workdir: i32, stage: i32) -> Option<Seq<char>> {
    if head == 1 && workdir == 1 && stage == 1 {
        None
    } else if head == 0 && workdir == 2 && stage == 0 {
        Some("? "@ + path)
    } else if head == 0 && workdir == 2 && stage == 2 {
        Some("A "@ + path)
    } else if head == 1 && workdir == 2 && (stage == 1 || stage == 2) {
        Some("M "@ + path)
    } else if head == 1 && workdir == 0 && (stage == 1 || stage == 0) {
        Some("D "@ + path)
    } else {
        Some(path + " ("@ + dec_int(head as int) + ", "@ + dec_int(workdir as int) + ", "@ + dec_int(
            stage as int,
        ) + ")"@)
    }
}

/// The status line of a `statusMatrix` row.
pub fn status_line(path: &str, head: i32, workdir: i32, stage: i32) -> (r: Option<String>)
    ensures
        match (r, status_line_spec(path@, head, workdir, stage)) {
            (Some(s), Some(t)) => s@ == t,
            (None, None) => true,
            _ => false,
        },
{
    if head == 1 && workdir == 1 && stage == 1 {
        return None;
    }
    let prefix = if head == 0 && workdir == 2 && stage == 0 {
        "? "
    } else if head == 0 && workdir == 2 && stage == 2 {
        "A "
    } else if head == 1 && workdir == 2 && (stage == 1 || stage == 2) {
        "M "
    } else if head == 1 && workdir == 0 && (stage == 1 || stage == 0) {
        "D "
    } else {
        let mut s = path.to_string();
        s.append(" (");
        let h = i64_to_string(head as i64);
        s.append(h.as_str());
        s.append(", ");
        let w = i64_to_string(workdir as i64);
        s.append(w.as_str());
        s.append(", ");
        let g = i64_to_string(stage as i64);
        s.append(g.as_str());
        s.append(")");
        return Some(s);
    };
    let mut s = prefix.to_string();
    s.append(path);
    Some(s)
}

/// The status lines of the rows, in order, without unchanged files.
pub open spec fn status_lines_spec(rows: Seq<(String, i32, i32, i32)>) -> Seq<Seq<char>>
    decreases rows.len(),
{
    if rows.len() == 0 {
        Seq::empty()
    } else {
        let r = rows.last();
        match status_line_spec(r.0@, r.1, r.2, r.3) {
            Some(l) => status_lines_spec(rows.drop_last()).push(l),
            None => status_lines_spec(rows.drop_last()),
        }
    }
}

/// The texts of strings.
pub open spec fn texts(v: Seq<String>) -> Seq<Seq<char>> {
    v.map_values(|s: String| s@)
}

/// The status lines of the rows of a `statusMatrix` result.
pub fn status_lines(rows: &Vec<(String, i32, i32, i32)>) -> (r: Vec<String>)
    ensures
        texts(r@) == status_lines_spec(rows@),
{
    let mut out: Vec<String> = Vec::new();
    let mut i: usize = 0;
    proof {
        assert(rows@.take(0) =~= Seq::<(String, i32, i32, i32)>::empty());
        assert(texts(out@) =~= Seq::<Seq<char>>::empty());
    }
    while i < rows.len()
        invariant
            i <= rows@.len(),
            texts(out@) == status_lines_spec(rows@.take(i as int)),
        decreases rows@.len() - i,
    {
        let ghost before = out@;
        proof {
            let pre = rows@.take(i + 1);
            assert(pre.drop_last() =~= rows@.take(i as int));
            assert(pre.last() == rows@[i as int]);
        }
        match status_line(rows[i].0.as_str(), rows[i].1, rows[i].2, rows[i].3) {
            Some(line) => {
                out.push(line);
                proof {
                    assert(texts(out@) =~= texts(before).push(out@.last()@));
                }
            },
            None => {},
        }
        i = i + 1;
    }
    proof {
        assert(rows@.take(rows@.len() as int) =~= rows@);
    }
    out
}

/// Whether a path segment names a directory entry (neither empty, `.` nor `..`).
pub open spec fn keep_segment(s: Seq<char>) -> bool {
    s.len() != 0 && s != "."@ && s != ".."@
}

/// The entries named by a path: its `/`-separated parts, trimmed, without
/// empty parts, `.` and `..`.
pub open spec fn segments(s: Seq<char>) -> Seq<Seq<char>>
    decreases s.len(),
{
    match first_occurrence(s, 0, seq!['/']) {
        Some(i) => {
            let rest = if 0 <= i < s.len() { s.skip(i + 1) } else { Seq::empty() };
            let head = if keep_segment(trim(s.take(i))) {
                seq![trim(s.take(i))]
            } else {
                Seq::empty()
            };
            head + segments(rest)
        },
        None => if keep_segment(trim(s)) {
            seq![trim(s)]
        } else {
            Seq::empty()
        },
    }
}

fn keep(v: &Vec<char>, a: usize, b: usize) -> (r: bool)
    requires
        a <= b <= v@.len(),
    ensures
        r == keep_segment(v@.subrange(a as int, b as int)),
{
    proof {
        reveal_strlit(".");
        reveal_strlit("..");
    }
    if a == b {
        return false;
    }
    if b - a == 1 && v[a] == '.' {
        proof {
            assert(v@.subrange(a as int, b as int) =~= "."@);
        }
        return false;
    }
    if b - a == 2 && v[a] == '.' && v[a + 1] == '.' {
        proof {
            assert(v@.subrange(a as int, b as int) =~= ".."@);
        }
        return false;
    }
    proof {
        if b - a == 1 {
            assert(v@.subrange(a as int, b as int)[0] != "."@[0]);
        }
        if b - a == 2 {
            assert(v@.subrange(a as int, b as int)[0] != ".."@[0] || v@.subrange(a as int, b as int)[1]
                != ".."@[1]);
        }
    }
    true
}

/// The entries named by an OPFS path.
#[verifier::spinoff_prover]
#[verifier::rlimit(80)]
pub fn path_segments(path: &str) -> (r: Vec<String>)
    ensures
        texts(r@) == segments(path@),
{
    let v = to_chars(path);
    let slash = vec!['/'];
    proof {
        assert(slash@ =~= seq!['/']);
    }
    let mut out: Vec<String> = Vec::new();
    let mut p: usize = 0;
    proof {
        assert(v@.skip(0) =~= path@);
        assert(texts(out@) + segments(v@.skip(0)) =~= segments(path@));
    }
    loop
        invariant
            p <= v@.len(),
            slash@ == seq!['/'],
            texts(out@) + segments(v@.skip(p as int)) == segments(path@),
        decreases v@.len() - p,
    {
        let ghost rest = v@.skip(p as int);
        let ghost before = out@;
        match find_from(&v, p, &slash) {
            Some(i) => {
                proof {
                    crate::http_reply::lemma_first_occurrence_range(v@, p as int, seq!['/']);
                    lemma_shift_occurrence(v@, p as int, i as int);
                    assert(rest.take(i - p) =~= v@.subrange(p as int, i as int));
                    assert(rest.skip(i - p + 1) =~= v@.skip(i + 1));
                }
                let (a, b) = trim_bounds(&v, p, i);
                if keep(&v, a, b) {
                    out.push(from_chars(&v, a, b));
                    proof {
                        assert(texts(out@) =~= texts(before).push(v@.subrange(a as int, b as int)));
                    }
                }
                proof {
                    assert(texts(out@) + segments(v@.skip(i + 1)) =~= texts(before) + segments(rest));
                }
                p = i + 1;
            },
            None => {
                proof {
                    lemma_no_occurrence(v@, p as int);
                    assert(rest =~= v@.subrange(p as int, v@.len() as int));
                }
                let (a, b) = trim_bounds(&v, p, v.len());
                if keep(&v, a, b) {
                    out.push(from_chars(&v, a, b));
                    proof {
                        assert(texts(out@) =~= texts(before).push(v@.subrange(a as int, b as int)));
                        assert(texts(out@) =~= texts(before) + segments(rest));
                    }
                } else {
                    assert(texts(out@) =~= texts(before) + segments(rest));
                }
                return out;
            },
        }
    }
}

/// The first `/` at or after `p` in `s` is the first `/` of `s.skip(p)`, shifted.
#[verifier::spinoff_prover]
proof fn lemma_shift_occurrence(s: Seq<char>, p: int, i: int)
    requires
        0 <= p <= s.len(),
        first_occurrence(s, p, seq!['/']) == Some(i),
        p <= i && i + 1 <= s.len(),
    ensures
        first_occurrence(s.skip(p), 0, seq!['/']) == Some(i - p),
{
    let t = s.skip(p);
    crate::text::lemma_first_occurrence_found(s, p, seq!['/']);
    assert(t.subrange(i - p, i - p + 1) =~= s.subrange(i, i + 1));
    assert forall|j: int| 0 <= j < i - p implies !occurs_at(t, j, seq!['/']) by {
        assert(!occurs_at(s, j + p, seq!['/']));
        assert(t.subrange(j, j + 1) =~= s.subrange(j + p, j + p + 1));
    }
    lemma_first_occurrence(t, 0, seq!['/'], i - p);
}

/// No `/` at or after `p` in `s` means none in `s.skip(p)`.
#[verifier::spinoff_prover]
proof fn lemma_no_occurrence(s: Seq<char>, p: int)
    requires
        0 <= p <= s.len(),
        first_occurrence(s, p, seq!['/']) is None,
    ensures
        first_occurrence(s.skip(p), 0, seq!['/']) is None,
{
    let t = s.skip(p);
    if exists|k: int| 0 <= k && occurs_at(t, k, seq!['/']) {
        let k = choose|k: int| 0 <= k && occurs_at(t, k, seq!['/']);
        assert(t.subrange(k, k + 1) =~= s.subrange(k + p, k + p + 1));
        assert(occurs_at(s, k + p, seq!['/']));
        assert(exists|m: int| p <= m && occurs_at(s, m, seq!['/']));
    }
}

/// The directories and the file name of an OPFS file path.
pub fn parent_and_name(path: &str) -> (r: Result<(Vec<String>, String), String>)
    ensures
        segments(path@).len() == 0 ==> (r matches Err(e) && e@ == "Path is empty or invalid"@),
        segments(path@).len() > 0 ==> (r matches Ok((dirs, name)) && texts(dirs@) == segments(
            path@,
        ).drop_last() && name@ == segments(path@).last()),
{
    let mut parts = path_segments(path);
    if parts.len() == 0 {
        return Err("Path is empty or invalid".to_string());
    }
    let ghost all = parts@;
    let name = parts.pop().unwrap();
    proof {
        assert(texts(parts@) =~= texts(all).drop_last());
    }
    Ok((parts, name))
}

} // verus!
