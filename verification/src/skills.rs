//! Skills: markdown files named `SKILL.md` that start with a front matter
//! (`name:` and `description:` between two `---` lines) followed by the skill's
//! body. Skills are held in a two-layer cache: an in-memory snapshot of all the
//! skills of a directory, and a small most-recently-used list in front of it.
use vstd::prelude::*;
use vstd::string::*;
use crate::text::{byte_len, first_occurrence, from_chars, find_from, matches_at, sub_chars, starts_with, to_chars, trim, trim_bounds};

verus! {

/// A skill loaded from a `SKILL.md` file.
#[derive(Clone, Debug)]
pub struct Skill {
    pub name: String,
    pub path: String,
    pub description: String,
    pub content: String,
}

/// The mathematical content of a skill.
pub struct SkillModel {
    pub name: Seq<char>,
    pub path: Seq<char>,
    pub description: Seq<char>,
    pub content: Seq<char>,
}

impl View for Skill {
    type V = SkillModel;

    open spec fn view(&self) -> SkillModel {
        SkillModel {
            name: self.name@,
            path: self.path@,
            description: self.description@,
            content: self.content@,
        }
    }
}

impl Skill {
    /// A copy of the skill.
    pub fn copy(&self) -> (s: Skill)
        ensures
            s == *self,
    {
        Skill {
            name: self.name.clone(),
            path: self.path.clone(),
            description: self.description.clone(),
            content: self.content.clone(),
        }
    }
}

/// Errors of the skill loader.
#[derive(Clone, Debug)]
pub enum SkillError {
    NotFound(String),
    Io(String),
}

/// A file found under a skills directory: its path and its text.
#[derive(Clone, Debug)]
pub struct SkillFile {
    pub path: String,
    pub content: String,
}

/// Replaces every `\r\n` by `\n`, scanning from the left.
pub open spec fn normalize_newlines(s: Seq<char>) -> Seq<char>
    decreases s.len(),
{
    if s.len() == 0 {
        s
    } else if s.len() >= 2 && s[0] == '\r' && s[1] == '\n' {
        seq!['\n'] + normalize_newlines(s.skip(2))
    } else {
        seq![s[0]] + normalize_newlines(s.drop_first())
    }
}

/// The lines of a text: the pieces between its `\n` characters.
pub open spec fn split_lines(s: Seq<char>) -> Seq<Seq<char>>
    decreases s.len(),
{
    if s.len() == 0 {
        seq![Seq::<char>::empty()]
    } else {
        let prev = split_lines(s.drop_last());
        if s.last() == '\n' {
            prev.push(Seq::<char>::empty())
        } else {
            prev.update(prev.len() - 1, prev.last().push(s.last()))
        }
    }
}

/// A front-matter value with surrounding white space removed, and one pair of
/// matching single or double quotes removed.
pub open spec fn clean_value(val: Seq<char>) -> Seq<char> {
    let t = trim(val);
    if t.len() >= 2 && ((t[0] == '"' && t.last() == '"') || (t[0] == '\'' && t.last() == '\'')) {
        t.subrange(1, t.len() - 1)
    } else {
        t
    }
}

/// The value that a front-matter line gives to `key` (such as `name:`), if any.
pub open spec fn field_of_line(line: Seq<char>, key: Seq<char>) -> Option<Seq<char>> {
    let t = trim(line);
    if starts_with(t, key) {
        Some(clean_value(t.skip(key.len() as int)))
    } else {
        None
    }
}

/// The value of `key` in the front matter: that of the last line that sets it.
pub open spec fn last_field(lines: Seq<Seq<char>>, key: Seq<char>) -> Option<Seq<char>>
    decreases lines.len(),
{
    if lines.len() == 0 {
        None
    } else {
        match field_of_line(lines.last(), key) {
            Some(v) => Some(v),
            None => last_field(lines.drop_last(), key),
        }
    }
}

/// The message for a file that does not begin with `---\n`.
pub open spec fn missing_open_message(path: Seq<char>) -> Seq<char> {
    "File at "@ + path + " does not start with frontmatter separator '---\\n'"@
}

/// The message for a front matter that is never closed by `\n---\n`.
pub open spec fn missing_close_message(path: Seq<char>) -> Seq<char> {
    "Could not find closing '---\\n' separator in frontmatter at "@ + path
}

/// The message for a front matter without a non-empty `name:`.
pub open spec fn missing_name_message(path: Seq<char>) -> Seq<char> {
    "Missing or empty 'name' in frontmatter at "@ + path
}

/// What parsing the text of a skill file gives: the skill, or the message of the
/// I/O error that rejects it.
pub open spec fn parse_skill(text: Seq<char>, path: Seq<char>) -> Result<SkillModel, Seq<char>> {
    let norm = normalize_newlines(text);
    if !starts_with(norm, "---\n"@) {
        Err(missing_open_message(path))
    } else {
        let after = norm.skip(4);
        match first_occurrence(after, 0, "\n---\n"@) {
            None => Err(missing_close_message(path)),
            Some(e) => {
                let lines = split_lines(after.take(e));
                match last_field(lines, "name:"@) {
                    Some(name) if name.len() > 0 => Ok(
                        SkillModel {
                            name,
                            path,
                            description: match last_field(lines, "description:"@) {
                                Some(d) => d,
                                None => Seq::<char>::empty(),
                            },
                            content: after.skip(e + 5),
                        },
                    ),
                    _ => Err(missing_name_message(path)),
                }
            },
        }
    }
}

/// The view of an optional string.
pub open spec fn opt_view(o: Option<String>) -> Option<Seq<char>> {
    match o {
        Some(s) => Some(s@),
        None => None,
    }
}

/// Whether a result of the parser agrees with its specification.
pub open spec fn parse_agrees(r: Result<Skill, SkillError>, spec: Result<SkillModel, Seq<char>>) -> bool {
    match (r, spec) {
        (Ok(s), Ok(m)) => s@ == m,
        (Err(SkillError::Io(e)), Err(m)) => e@ == m,
        _ => false,
    }
}

/// Replaces every `\r\n` of `v` by `\n`.
fn normalize_chars(v: &Vec<char>) -> (r: Vec<char>)
    ensures
        r@ == normalize_newlines(v@),
{
    let mut out: Vec<char> = Vec::new();
    let mut i: usize = 0;
    proof {
        assert(v@.skip(0) =~= v@);
        assert(out@ + normalize_newlines(v@) =~= normalize_newlines(v@));
    }
    while i < v.len()
        invariant
            i <= v.len(),
            normalize_newlines(v@) == out@ + normalize_newlines(v@.skip(i as int)),
        decreases v.len() - i,
    {
        let ghost rest = v@.skip(i as int);
        if i + 1 < v.len() && v[i] == '\r' && v[i + 1] == '\n' {
            proof {
                assert(rest.skip(2) =~= v@.skip(i + 2));
                assert(out@ + (seq!['\n'] + normalize_newlines(rest.skip(2))) =~= out@.push('\n')
                    + normalize_newlines(v@.skip(i + 2)));
            }
            out.push('\n');
            i = i + 2;
        } else {
            proof {
                assert(rest.drop_first() =~= v@.skip(i + 1));
                assert(rest[0] == v@[i as int]);
                assert(out@ + (seq![rest[0]] + normalize_newlines(rest.drop_first())) =~= out@.push(
                    v@[i as int],
                ) + normalize_newlines(v@.skip(i + 1)));
            }
            out.push(v[i]);
            i = i + 1;
        }
    }
    proof {
        assert(v@.skip(i as int) =~= Seq::<char>::empty());
        assert(out@ + Seq::<char>::empty() =~= out@);
    }
    out
}

/// Removes surrounding white space and one pair of matching quotes from a
/// front-matter value.
pub fn clean_yaml_value(val: &str) -> (r: String)
    ensures
        r@ == clean_value(val@),
{
    let v = to_chars(val);
    let (a, b) = trim_bounds(&v, 0, v.len());
    proof {
        assert(v@.subrange(0, v@.len() as int) =~= v@);
    }
    let ghost t = v@.subrange(a as int, b as int);
    if b - a >= 2 && ((v[a] == '"' && v[b - 1] == '"') || (v[a] == '\'' && v[b - 1] == '\'')) {
        proof {
            assert(t[0] == v@[a as int]);
            assert(t.last() == v@[b - 1]);
            assert(t.subrange(1, t.len() - 1) =~= v@.subrange(a + 1, b - 1));
        }
        from_chars(&v, a + 1, b - 1)
    } else {
        proof {
            if t.len() >= 2 {
                assert(t[0] == v@[a as int]);
                assert(t.last() == v@[b - 1]);
            }
        }
        from_chars(&v, a, b)
    }
}

/// The value given to `key` by the line `v[lo..hi]`, if the line sets it.
fn line_field(v: &Vec<char>, lo: usize, hi: usize, key: &Vec<char>) -> (r: Option<String>)
    requires
        lo <= hi <= v.len(),
    ensures
        opt_view(r) == field_of_line(v@.subrange(lo as int, hi as int), key@),
{
    let (a, b) = trim_bounds(v, lo, hi);
    let ghost t = v@.subrange(a as int, b as int);
    if b - a >= key.len() && matches_at(v, a, key) {
        proof {
            assert(t.subrange(0, key@.len() as int) =~= v@.subrange(a as int, a + key@.len()));
            assert(t.skip(key@.len() as int) =~= v@.subrange(a + key@.len(), b as int));
        }
        let rest = from_chars(v, a + key.len(), b);
        Some(clean_yaml_value(rest.as_str()))
    } else {
        proof {
            if starts_with(t, key@) {
                assert(t.subrange(0, key@.len() as int) =~= v@.subrange(
                    a as int,
                    a + key@.len(),
                ));
            }
        }
        None
    }
}

/// Splitting one more character onto a text extends its last line, or starts a
/// new one at a newline.
proof fn lemma_split_lines_push(s: Seq<char>, c: char)
    ensures
        split_lines(s.push(c)) == (if c == '\n' {
            split_lines(s).push(Seq::<char>::empty())
        } else {
            split_lines(s).update(
                split_lines(s).len() - 1,
                split_lines(s).last().push(c),
            )
        }),
{
    assert(s.push(c).drop_last() =~= s);
}

/// Every text has at least one line.
proof fn lemma_split_lines_nonempty(s: Seq<char>)
    ensures
        split_lines(s).len() >= 1,
    decreases s.len(),
{
    if s.len() > 0 {
        lemma_split_lines_nonempty(s.drop_last());
    }
}

/// The values of `name:` and `description:` in the front matter `v[lo..hi]`.
fn front_matter_fields(v: &Vec<char>, lo: usize, hi: usize) -> (r: (Option<String>, Option<String>))
    requires
        lo <= hi <= v.len(),
    ensures
        opt_view(r.0) == last_field(split_lines(v@.subrange(lo as int, hi as int)), "name:"@),
        opt_view(r.1) == last_field(
            split_lines(v@.subrange(lo as int, hi as int)),
            "description:"@,
        ),
{
    let name_key = to_chars("name:");
    let desc_key = to_chars("description:");
    let mut name: Option<String> = None;
    let mut description: Option<String> = None;
    let mut line_start = lo;
    let mut i = lo;
    let ghost mut done: Seq<Seq<char>> = Seq::empty();
    proof {
        assert(v@.subrange(lo as int, lo as int) =~= Seq::<char>::empty());
        assert(split_lines(Seq::<char>::empty()) == seq![Seq::<char>::empty()]);
        assert(done.push(v@.subrange(lo as int, lo as int)) =~= seq![Seq::<char>::empty()]);
    }
    while i < hi
        invariant
            lo <= line_start <= i <= hi <= v.len(),
            name_key@ == "name:"@,
            desc_key@ == "description:"@,
            split_lines(v@.subrange(lo as int, i as int)) == done.push(
                v@.subrange(line_start as int, i as int),
            ),
            opt_view(name) == last_field(done, "name:"@),
            opt_view(description) == last_field(done, "description:"@),
        decreases hi - i,
    {
        let ghost cur = v@.subrange(line_start as int, i as int);
        proof {
            assert(v@.subrange(lo as int, i + 1) =~= v@.subrange(lo as int, i as int).push(
                v@[i as int],
            ));
            lemma_split_lines_push(v@.subrange(lo as int, i as int), v@[i as int]);
        }
        if v[i] == '\n' {
            let n = line_field(v, line_start, i, &name_key);
            if n.is_some() {
                name = n;
            }
            let d = line_field(v, line_start, i, &desc_key);
            if d.is_some() {
                description = d;
            }
            proof {
                let nd = done.push(cur);
                assert(nd.drop_last() =~= done);
                assert(nd.last() == cur);
                done = nd;
                assert(v@.subrange((i + 1) as int, (i + 1) as int) =~= Seq::<char>::empty());
            }
            line_start = i + 1;
        } else {
            proof {
                assert(v@.subrange(line_start as int, i + 1) =~= cur.push(v@[i as int]));
                assert(done.push(cur).update(done.len() as int, cur.push(v@[i as int]))
                    =~= done.push(cur.push(v@[i as int])));
            }
        }
        i = i + 1;
    }
    let n = line_field(v, line_start, hi, &name_key);
    if n.is_some() {
        name = n;
    }
    let d = line_field(v, line_start, hi, &desc_key);
    if d.is_some() {
        description = d;
    }
    proof {
        let all = done.push(v@.subrange(line_start as int, hi as int));
        assert(all.drop_last() =~= done);
    }
    (name, description)
}

/// The front-matter part of parsing: `after` is the text that follows the
/// opening `---` line.
fn parse_after_open(after: &Vec<char>, path: &str) -> (r: Result<Skill, SkillError>)
    ensures
        parse_agrees(
            r,
            match first_occurrence(after@, 0, "\n---\n"@) {
                None => Err(missing_close_message(path@)),
                Some(e) => {
                    let lines = split_lines(after@.take(e));
                    match last_field(lines, "name:"@) {
                        Some(name) if name.len() > 0 => Ok(
                            SkillModel {
                                name,
                                path: path@,
                                description: match last_field(lines, "description:"@) {
                                    Some(d) => d,
                                    None => Seq::<char>::empty(),
                                },
                                content: after@.skip(e + 5),
                            },
                        ),
                        _ => Err(missing_name_message(path@)),
                    }
                },
            },
        ),
{
    let close_sep = to_chars("\n---\n");
    proof {
        reveal_strlit("\n---\n");
        assert(close_sep@.len() == 5);
    }
    match find_from(after, 0, &close_sep) {
        Some(end_index) => {
            let (name, description) = front_matter_fields(after, 0, end_index);
            proof {
                assert(after@.subrange(0, end_index as int) =~= after@.take(end_index as int));
            }
            let name = match name {
                Some(n) => {
                    if n.as_str().is_empty() {
                        let mut msg = "Missing or empty 'name' in frontmatter at ".to_string();
                        msg.append(path);
                        return Err(SkillError::Io(msg));
                    }
                    n
                },
                None => {
                    let mut msg = "Missing or empty 'name' in frontmatter at ".to_string();
                    msg.append(path);
                    return Err(SkillError::Io(msg));
                },
            };
            let description = match description {
                Some(d) => d,
                None => String::new(),
            };
            let body = from_chars(after, end_index + 5, after.len());
            proof {
                assert(after@.subrange(end_index + 5, after@.len() as int) =~= after@.skip(
                    end_index + 5,
                ));
            }
            Ok(Skill { name, path: path.to_string(), description, content: body })
        },
        None => {
            let mut msg = "Could not find closing '---\\n' separator in frontmatter at ".to_string();
            msg.append(path);
            Err(SkillError::Io(msg))
        },
    }
}

/// Parses the text of a skill file found at `path`: the text must begin with a
/// `---` line, and the front matter must end with a `---` line and give a
/// non-empty `name:`; the `description:` defaults to empty, and the rest of the
/// text is the skill's content. `\r\n` line ends are read as `\n`.
pub fn parse_skill_file(content_str: &str, path: &str) -> (r: Result<Skill, SkillError>)
    ensures
        parse_agrees(r, parse_skill(content_str@, path@)),
{
    let raw = to_chars(content_str);
    let norm = normalize_chars(&raw);
    let open_sep = to_chars("---\n");
    proof {
        reveal_strlit("---\n");
    }
    if !matches_at(&norm, 0, &open_sep) {
        let mut msg = "File at ".to_string();
        msg.append(path);
        msg.append(" does not start with frontmatter separator '---\\n'");
        return Err(SkillError::Io(msg));
    }
    let after = sub_chars(&norm, 4, norm.len());
    proof {
        assert(after@ =~= norm@.skip(4));
    }
    parse_after_open(&after, path)
}

/// Whether the file name is that of a skill file (`SKILL.md`).
pub fn is_skill_file(file_name: &str) -> (r: bool)
    ensures
        r == (file_name@ == "SKILL.md"@),
{
    let f = file_name.to_string();
    let k = "SKILL.md".to_string();
    f == k
}

/// The skills of a snapshot, looked up by name: the last one with that name.
pub open spec fn find_skill(snap: Seq<SkillModel>, name: Seq<char>) -> Option<SkillModel>
    decreases snap.len(),
{
    if snap.len() == 0 {
        None
    } else if snap.last().name == name {
        Some(snap.last())
    } else {
        find_skill(snap.drop_last(), name)
    }
}

/// Whether some skill of the snapshot has the name.
pub open spec fn has_name(snap: Seq<SkillModel>, name: Seq<char>) -> bool {
    exists|j: int| 0 <= j < snap.len() && snap[j].name == name
}

/// Replaces the last skill named like `s` by `s`.
pub open spec fn replace_named(snap: Seq<SkillModel>, s: SkillModel) -> Seq<SkillModel>
    decreases snap.len(),
{
    if snap.len() == 0 {
        snap
    } else if snap.last().name == s.name {
        snap.drop_last().push(s)
    } else {
        replace_named(snap.drop_last(), s).push(snap.last())
    }
}

/// Adds a skill to a snapshot, replacing the one with the same name if any,
/// appending it otherwise.
pub open spec fn replace_or_push(snap: Seq<SkillModel>, s: SkillModel) -> Seq<SkillModel> {
    if has_name(snap, s.name) {
        replace_named(snap, s)
    } else {
        snap.push(s)
    }
}

/// The snapshot of a list of skills: one skill per name, the last one read with
/// that name, in order of first appearance.
pub open spec fn snapshot_of(skills: Seq<SkillModel>) -> Seq<SkillModel>
    decreases skills.len(),
{
    if skills.len() == 0 {
        Seq::empty()
    } else {
        replace_or_push(snapshot_of(skills.drop_last()), skills.last())
    }
}

/// Whether no two skills share a name.
pub open spec fn distinct_names(snap: Seq<SkillModel>) -> bool {
    forall|i: int, j: int| 0 <= i < snap.len() && 0 <= j < snap.len() && i != j ==> snap[i].name != snap[j].name
}

/// What parsing a list of files gives: all the skills in order, or the message
/// of the first file that is rejected.
pub open spec fn parse_all(files: Seq<(Seq<char>, Seq<char>)>) -> Result<Seq<SkillModel>, Seq<char>>
    decreases files.len(),
{
    if files.len() == 0 {
        Ok(Seq::empty())
    } else {
        match parse_all(files.drop_last()) {
            Err(e) => Err(e),
            Ok(prev) => match parse_skill(files.last().1, files.last().0) {
                Err(e) => Err(e),
                Ok(s) => Ok(prev.push(s)),
            },
        }
    }
}

/// The paths and texts of files.
pub open spec fn file_models(files: Seq<SkillFile>) -> Seq<(Seq<char>, Seq<char>)> {
    files.map_values(|f: SkillFile| (f.path@, f.content@))
}

/// The snapshot that a list of files gives, or the message of the first rejected file.
pub open spec fn load_files(files: Seq<(Seq<char>, Seq<char>)>) -> Result<Seq<SkillModel>, Seq<char>> {
    match parse_all(files) {
        Ok(skills) => Ok(snapshot_of(skills)),
        Err(e) => Err(e),
    }
}

/// The models of skills.
pub open spec fn skill_models(v: Seq<Skill>) -> Seq<SkillModel> {
    v.map_values(|s: Skill| s@)
}

/// The model of a cache entry.
pub open spec fn entry_model(e: (String, Skill)) -> (Seq<char>, SkillModel) {
    (e.0@, e.1@)
}

/// The models of the cache entries.
pub open spec fn lru_models(q: Seq<(String, Skill)>) -> Seq<(Seq<char>, SkillModel)> {
    q.map_values(|e: (String, Skill)| entry_model(e))
}

/// Where `name` stands in the recently-used list, if anywhere.
pub open spec fn lru_position(q: Seq<(Seq<char>, SkillModel)>, name: Seq<char>) -> Option<int> {
    if exists|p: int| 0 <= p < q.len() && q[p].0 == name {
        Some(choose|p: int| 0 <= p < q.len() && q[p].0 == name)
    } else {
        None
    }
}

/// The recently-used list after looking up `name`: a hit moves the entry to the
/// front; a miss that the snapshot answers puts a new entry at the front and
/// drops the least recently used one beyond the capacity; otherwise unchanged.
pub open spec fn lru_after_get(
    q: Seq<(Seq<char>, SkillModel)>,
    snap: Seq<SkillModel>,
    cap: nat,
    name: Seq<char>,
) -> Seq<(Seq<char>, SkillModel)> {
    match lru_position(q, name) {
        Some(p) => seq![q[p]] + q.remove(p),
        None => match find_skill(snap, name) {
            Some(s) => {
                let grown = seq![(name, s)] + q;
                if grown.len() > cap {
                    grown.drop_last()
                } else {
                    grown
                }
            },
            None => q,
        },
    }
}

/// A two-layer skill cache: the snapshot of all the skills of a directory, and in
/// front of it a list of recently used skills, most recent first.
pub struct SkillLoader {
    pub dir: String,
    pub snapshot: Vec<Skill>,
    pub lru: std::collections::VecDeque<(String, Skill)>,
    pub lru_capacity: usize,
}

impl SkillLoader {
    /// The directory the skills were read from.
    pub open spec fn dir_view(&self) -> Seq<char> {
        self.dir@
    }

    /// The model of the snapshot.
    pub open spec fn snap(&self) -> Seq<SkillModel> {
        skill_models(self.snapshot@)
    }

    /// The model of the recently-used list.
    pub open spec fn recent(&self) -> Seq<(Seq<char>, SkillModel)> {
        lru_models(self.lru@)
    }

    /// The cache is consistent: one skill per name in the snapshot; the recently
    /// used list holds distinct names, each with the snapshot's skill of that
    /// name, and no more entries than its capacity.
    pub open spec fn wf(&self) -> bool {
        &&& distinct_names(self.snap())
        &&& self.lru@.len() <= self.lru_capacity
        &&& forall|i: int, j: int|
            0 <= i < self.recent().len() && 0 <= j < self.recent().len() && i != j
                ==> self.recent()[i].0 != self.recent()[j].0
        &&& forall|i: int|
            0 <= i < self.recent().len() ==> find_skill(self.snap(), #[trigger] self.recent()[i].0)
                == Some(self.recent()[i].1)
    }

    /// A loader for `dir` whose snapshot holds the skills of `files` (the
    /// `SKILL.md` files found under `dir`), with an empty recently-used list of
    /// capacity ten; fails with the message of the first file that is rejected.
    pub fn new(dir: &str, files: &Vec<SkillFile>) -> (r: Result<SkillLoader, SkillError>)
        ensures
            match (r, load_files(file_models(files@))) {
                (Ok(l), Ok(snap)) => {
                    &&& l.wf()
                    &&& l.snap() == snap
                    &&& l.dir_view() == dir@
                    &&& l.lru@.len() == 0
                    &&& l.lru_capacity == 10
                },
                (Err(SkillError::Io(e)), Err(m)) => e@ == m,
                _ => false,
            },
    {
        let snapshot = build_snapshot(files)?;
        Ok(SkillLoader {
            dir: dir.to_string(),
            snapshot,
            lru: std::collections::VecDeque::new(),
            lru_capacity: 10,
        })
    }

    /// The directory the skills were read from.
    pub fn dir(&self) -> (r: &String)
        ensures
            r@ == self.dir_view(),
    {
        &self.dir
    }

    /// Replaces the snapshot by the skills of `files` (read again from the
    /// directory) and empties the recently-used list; on failure nothing changes.
    pub fn reload(&mut self, files: &Vec<SkillFile>) -> (r: Result<(), SkillError>)
        requires
            old(self).wf(),
        ensures
            final(self).wf(),
            final(self).dir_view() == old(self).dir_view(),
            final(self).lru_capacity == old(self).lru_capacity,
            match (r, load_files(file_models(files@))) {
                (Ok(()), Ok(snap)) => final(self).snap() == snap && final(self).lru@.len() == 0,
                (Err(SkillError::Io(e)), Err(m)) => e@ == m && *final(self) == *old(self),
                _ => false,
            },
    {
        let snapshot = build_snapshot(files)?;
        self.snapshot = snapshot;
        self.lru.clear();
        Ok(())
    }

    /// The skills of the snapshot, one per name.
    pub fn skills(&self) -> (r: Vec<Skill>)
        ensures
            skill_models(r@) == self.snap(),
    {
        let mut out: Vec<Skill> = Vec::new();
        let mut i: usize = 0;
        while i < self.snapshot.len()
            invariant
                i <= self.snapshot.len(),
                skill_models(out@) == self.snap().take(i as int),
            decreases self.snapshot.len() - i,
        {
            let ghost before = out@;
            out.push(self.snapshot[i].copy());
            proof {
                assert(skill_models(out@) =~= skill_models(before).push(self.snap()[i as int]));
                assert(self.snap().take(i + 1) =~= self.snap().take(i as int).push(self.snap()[i as int]));
            }
            i = i + 1;
        }
        proof {
            assert(self.snap().take(self.snapshot@.len() as int) =~= self.snap());
        }
        out
    }

    /// Looks a skill up by name: first in the recently-used list (a hit moves it
    /// to the front), then in the snapshot (a found skill enters the front of the
    /// list, and the least recently used entry leaves it beyond its capacity).
    /// The answer is always the snapshot's skill of that name.
    pub fn get(&mut self, name: &str) -> (r: Option<Skill>)
        requires
            old(self).wf(),
        ensures
            final(self).wf(),
            match r {
                Some(s) => find_skill(old(self).snap(), name@) == Some(s@),
                None => find_skill(old(self).snap(), name@) is None,
            },
            final(self).recent() == lru_after_get(
                old(self).recent(),
                old(self).snap(),
                old(self).lru_capacity as nat,
                name@,
            ),
            final(self).snapshot@ == old(self).snapshot@,
            final(self).lru_capacity == old(self).lru_capacity,
            final(self).dir_view() == old(self).dir_view(),
    {
        let key = name.to_string();
        let ghost q = self.recent();
        let mut p: usize = 0;
        while p < self.lru.len()
            invariant
                p <= self.lru@.len(),
                *self == *old(self),
                self.wf(),
                q == lru_models(self.lru@),
                key@ == name@,
                forall|j: int| 0 <= j < p ==> q[j].0 != name@,
            decreases self.lru@.len() - p,
        {
            if self.lru[p].0 == key {
                let ghost before = *self;
                proof {
                    assert(q[p as int].0 == name@);
                    let w = choose|w: int| 0 <= w < q.len() && q[w].0 == name@;
                    assert(0 <= w < q.len() && q[w].0 == name@);
                    if w != p as int {
                        assert(q[w].0 != q[p as int].0);
                    }
                    assert(lru_position(q, name@) == Some(p as int));
                }
                let item = self.lru.remove(p).unwrap();
                let front = (item.0.clone(), item.1.copy());
                self.lru.push_front(front);
                proof {
                    assert(self.recent() =~= seq![q[p as int]] + q.remove(p as int));
                    assert forall|i: int| 0 <= i < self.recent().len() implies find_skill(
                        self.snap(),
                        #[trigger] self.recent()[i].0,
                    ) == Some(self.recent()[i].1) by {
                        if i > 0 {
                            let k = if i - 1 < p { i - 1 } else { i };
                            assert(self.recent()[i] == q[k]);
                        }
                    }
                    assert forall|i: int, j: int|
                        0 <= i < self.recent().len() && 0 <= j < self.recent().len() && i != j
                        implies self.recent()[i].0 != self.recent()[j].0 by {
                        let ki = if i == 0 { p as int } else if i - 1 < p { i - 1 } else { i };
                        let kj = if j == 0 { p as int } else if j - 1 < p { j - 1 } else { j };
                        assert(self.recent()[i] == q[ki]);
                        assert(self.recent()[j] == q[kj]);
                    }
                }
                return Some(item.1);
            }
            p = p + 1;
        }
        proof {
            assert(lru_position(q, name@) is None);
        }
        match find_in_snapshot(&self.snapshot, &key) {
            Some(idx) => {
                let skill = self.snapshot[idx].copy();
                let entry = (key.clone(), self.snapshot[idx].copy());
                self.lru.push_front(entry);
                let ghost grown = self.recent();
                proof {
                    assert(grown =~= seq![(name@, skill@)] + q);
                }
                if self.lru.len() > self.lru_capacity {
                    self.lru.pop_back();
                    proof {
                        assert(self.recent() =~= grown.drop_last());
                    }
                }
                proof {
                    assert forall|i: int| 0 <= i < self.recent().len() implies find_skill(
                        self.snap(),
                        #[trigger] self.recent()[i].0,
                    ) == Some(self.recent()[i].1) by {
                        assert(self.recent()[i] == grown[i]);
                        if i > 0 {
                            assert(grown[i] == q[i - 1]);
                        }
                    }
                    assert forall|i: int, j: int|
                        0 <= i < self.recent().len() && 0 <= j < self.recent().len() && i != j
                        implies self.recent()[i].0 != self.recent()[j].0 by {
                        assert(self.recent()[i] == grown[i]);
                        assert(self.recent()[j] == grown[j]);
                        if i > 0 {
                            assert(grown[i] == q[i - 1]);
                        }
                        if j > 0 {
                            assert(grown[j] == q[j - 1]);
                        }
                    }
                }
                Some(skill)
            },
            None => None,
        }
    }
}

/// Where the snapshot holds the skill named `name`: the last position with that name.
fn find_in_snapshot(snapshot: &Vec<Skill>, name: &String) -> (r: Option<usize>)
    ensures
        match r {
            Some(i) => i < snapshot@.len() && find_skill(skill_models(snapshot@), name@) == Some(
                snapshot@[i as int]@,
            ),
            None => find_skill(skill_models(snapshot@), name@) is None,
        },
{
    let ghost all = skill_models(snapshot@);
    let mut i = snapshot.len();
    proof {
        assert(all.take(i as int) =~= all);
    }
    while i > 0
        invariant
            i <= snapshot@.len(),
            all == skill_models(snapshot@),
            find_skill(all, name@) == find_skill(all.take(i as int), name@),
        decreases i,
    {
        let ghost pre = all.take(i as int);
        proof {
            assert(pre.drop_last() =~= all.take(i - 1));
            assert(pre.last() == snapshot@[i - 1]@);
        }
        if snapshot[i - 1].name == *name {
            return Some(i - 1);
        }
        i = i - 1;
    }
    proof {
        assert(all.take(0) =~= Seq::<SkillModel>::empty());
    }
    None
}

/// In a snapshot without repeated names, replacing by name replaces in place.
proof fn lemma_replace_named(snap: Seq<SkillModel>, s: SkillModel, j: int)
    requires
        distinct_names(snap),
        0 <= j < snap.len(),
        snap[j].name == s.name,
    ensures
        replace_named(snap, s) == snap.update(j, s),
    decreases snap.len(),
{
    let w = snap.drop_last();
    if snap.last().name == s.name {
        if j != snap.len() - 1 {
            assert(snap[j].name != snap[snap.len() - 1].name);
        }
        assert(w.push(s) =~= snap.update(snap.len() - 1, s));
    } else {
        assert(j < snap.len() - 1);
        assert(w[j].name == s.name);
        assert(distinct_names(w));
        lemma_replace_named(w, s, j);
        assert(w.update(j, s).push(snap.last()) =~= snap.update(j, s));
    }
}

/// Adds a skill to the snapshot, replacing the one with the same name.
fn add_to_snapshot(snapshot: &mut Vec<Skill>, skill: &Skill)
    requires
        distinct_names(skill_models(old(snapshot)@)),
    ensures
        skill_models(final(snapshot)@) == replace_or_push(skill_models(old(snapshot)@), skill@),
        distinct_names(skill_models(final(snapshot)@)),
{
    let ghost snap0 = skill_models(snapshot@);
    match find_in_snapshot(snapshot, &skill.name) {
        Some(j) => {
            proof {
                lemma_find_skill_name(snap0, skill@.name, j as int);
                assert(has_name(snap0, skill@.name));
                lemma_replace_named(snap0, skill@, j as int);
            }
            snapshot.set(j, skill.copy());
            proof {
                assert(skill_models(snapshot@) =~= snap0.update(j as int, skill@));
                let sm = skill_models(snapshot@);
                assert forall|a: int, b: int|
                    0 <= a < sm.len() && 0 <= b < sm.len() && a != b implies sm[a].name
                    != sm[b].name by {
                    if a != j && b != j {
                        assert(sm[a] == snap0[a] && sm[b] == snap0[b]);
                    } else if a == j {
                        assert(sm[b] == snap0[b]);
                        assert(snap0[j as int].name != snap0[b].name);
                    } else {
                        assert(sm[a] == snap0[a]);
                        assert(snap0[j as int].name != snap0[a].name);
                    }
                }
            }
        },
        None => {
            proof {
                lemma_find_skill_none(snap0, skill@.name);
                assert(!has_name(snap0, skill@.name));
            }
            snapshot.push(skill.copy());
            proof {
                assert(skill_models(snapshot@) =~= snap0.push(skill@));
            }
        },
    }
}

/// A rejection among the first files is the rejection of every longer list.
proof fn lemma_parse_all_err(fm: Seq<(Seq<char>, Seq<char>)>, i: int, j: int)
    requires
        0 <= i <= j <= fm.len(),
        parse_all(fm.take(i)) is Err,
    ensures
        parse_all(fm.take(j)) == parse_all(fm.take(i)),
    decreases j - i,
{
    if i < j {
        lemma_parse_all_err(fm, i, j - 1);
        assert(fm.take(j).drop_last() =~= fm.take(j - 1));
    }
}

/// One more file parsed: its skill extends the list, or its rejection ends it.
proof fn lemma_parse_all_step(fm: Seq<(Seq<char>, Seq<char>)>, i: int)
    requires
        0 <= i < fm.len(),
        parse_all(fm.take(i)) is Ok,
    ensures
        parse_all(fm.take(i + 1)) == (match parse_skill(fm[i].1, fm[i].0) {
            Err(e) => Err(e),
            Ok(s) => Ok(parse_all(fm.take(i))->Ok_0.push(s)),
        }),
{
    assert(fm.take(i + 1).drop_last() =~= fm.take(i));
    assert(fm.take(i + 1).last() == fm[i]);
}

/// The snapshot of the parsed skills of `files`, or the first rejection.
#[verifier::rlimit(30)]
fn build_snapshot(files: &Vec<SkillFile>) -> (r: Result<Vec<Skill>, SkillError>)
    ensures
        match (r, load_files(file_models(files@))) {
            (Ok(v), Ok(snap)) => skill_models(v@) == snap && distinct_names(snap),
            (Err(SkillError::Io(e)), Err(m)) => e@ == m,
            _ => false,
        },
{
    let ghost fm = file_models(files@);
    let mut parsed: Vec<Skill> = Vec::new();
    let mut snapshot: Vec<Skill> = Vec::new();
    let mut i: usize = 0;
    proof {
        assert(fm.take(0) =~= Seq::<(Seq<char>, Seq<char>)>::empty());
        assert(skill_models(parsed@) =~= Seq::<SkillModel>::empty());
        assert(skill_models(snapshot@) =~= Seq::<SkillModel>::empty());
    }
    while i < files.len()
        invariant
            i <= files.len(),
            fm == file_models(files@),
            parse_all(fm.take(i as int)) == Ok::<Seq<SkillModel>, Seq<char>>(skill_models(parsed@)),
            skill_models(snapshot@) == snapshot_of(skill_models(parsed@)),
            distinct_names(skill_models(snapshot@)),
        decreases files.len() - i,
    {
        proof {
            lemma_parse_all_step(fm, i as int);
            assert(fm[i as int] == (files@[i as int].path@, files@[i as int].content@));
        }
        let skill = match parse_skill_file(files[i].content.as_str(), files[i].path.as_str()) {
            Ok(s) => s,
            Err(e) => {
                proof {
                    lemma_parse_all_err(fm, i + 1, fm.len() as int);
                    assert(fm.take(fm.len() as int) =~= fm);
                }
                return Err(e);
            },
        };
        let ghost parsed0 = skill_models(parsed@);
        add_to_snapshot(&mut snapshot, &skill);
        parsed.push(skill);
        proof {
            assert(skill_models(parsed@) =~= parsed0.push(skill@));
            assert(skill_models(parsed@).drop_last() =~= parsed0);
        }
        i = i + 1;
    }
    proof {
        assert(fm.take(files@.len() as int) =~= fm);
    }
    Ok(snapshot)
}

/// A found skill comes from some position with that name.
proof fn lemma_find_skill_some(snap: Seq<SkillModel>, name: Seq<char>)
    ensures
        find_skill(snap, name) matches Some(s) ==> s.name == name,
    decreases snap.len(),
{
    if snap.len() > 0 && snap.last().name != name {
        lemma_find_skill_some(snap.drop_last(), name);
    }
}

/// Where a snapshot without repeated names finds `name`, the name stands.
proof fn lemma_find_skill_name(snap: Seq<SkillModel>, name: Seq<char>, j: int)
    requires
        0 <= j < snap.len(),
        find_skill(snap, name) == Some(snap[j]),
        distinct_names(snap),
    ensures
        snap[j].name == name,
{
    lemma_find_skill_some(snap, name);
}

/// A name that is not found is absent.
proof fn lemma_find_skill_none(snap: Seq<SkillModel>, name: Seq<char>)
    ensures
        find_skill(snap, name) is None ==> forall|j: int| 0 <= j < snap.len() ==> snap[j].name != name,
    decreases snap.len(),
{
    if snap.len() > 0 {
        lemma_find_skill_none(snap.drop_last(), name);
        if find_skill(snap, name) is None {
            assert forall|j: int| 0 <= j < snap.len() implies snap[j].name != name by {
                if j < snap.len() - 1 {
                    assert(snap.drop_last()[j] == snap[j]);
                }
            }
        }
    }
}

/// The snapshot that the registry holds for `dir`: that of the first loader for it.
pub open spec fn registry_lookup(loaders: Seq<SkillLoader>, dir: Seq<char>) -> Option<Seq<SkillModel>>
    decreases loaders.len(),
{
    if loaders.len() == 0 {
        None
    } else if loaders[0].dir_view() == dir {
        Some(loaders[0].snap())
    } else {
        registry_lookup(loaders.drop_first(), dir)
    }
}

/// The loaders of every skills directory read so far, one per directory.
pub struct SkillRegistry {
    pub loaders: Vec<SkillLoader>,
}

impl SkillRegistry {
    /// An empty registry.
    pub fn new() -> (r: SkillRegistry)
        ensures
            r.wf(),
            forall|d: Seq<char>| r.cached(d) is None,
    {
        SkillRegistry { loaders: Vec::new() }
    }

    /// The snapshot held for `dir`, if the directory was read before.
    pub open spec fn cached(&self, dir: Seq<char>) -> Option<Seq<SkillModel>> {
        registry_lookup(self.loaders@, dir)
    }

    /// Every loader is consistent.
    pub open spec fn wf(&self) -> bool {
        forall|i: int| 0 <= i < self.loaders@.len() ==> (#[trigger] self.loaders@[i]).wf()
    }

    /// Whether `dir` was read before.
    pub fn contains(&self, dir: &str) -> (r: bool)
        ensures
            r == self.cached(dir@) is Some,
    {
        self.position(dir).is_some()
    }

    /// Where the loader for `dir` stands.
    fn position(&self, dir: &str) -> (r: Option<usize>)
        ensures
            match r {
                Some(i) => i < self.loaders@.len() && self.cached(dir@) == Some(self.loaders@[i as int].snap()),
                None => self.cached(dir@) is None,
            },
    {
        let key = dir.to_string();
        let mut i: usize = 0;
        proof {
            assert(self.loaders@.skip(0) =~= self.loaders@);
        }
        while i < self.loaders.len()
            invariant
                i <= self.loaders@.len(),
                key@ == dir@,
                self.cached(dir@) == registry_lookup(self.loaders@.skip(i as int), dir@),
            decreases self.loaders@.len() - i,
        {
            let ghost rest = self.loaders@.skip(i as int);
            proof {
                assert(rest[0] == self.loaders@[i as int]);
                assert(rest.drop_first() =~= self.loaders@.skip(i + 1));
            }
            if *self.loaders[i].dir() == key {
                return Some(i);
            }
            i = i + 1;
        }
        proof {
            assert(self.loaders@.skip(i as int) =~= Seq::<SkillLoader>::empty());
        }
        None
    }
}

/// Adding a loader for a directory not held yet answers for that directory and
/// leaves the others as they were.
proof fn lemma_registry_push(loaders: Seq<SkillLoader>, l: SkillLoader, dir: Seq<char>)
    requires
        registry_lookup(loaders, l.dir_view()) is None,
    ensures
        registry_lookup(loaders.push(l), dir) == (if registry_lookup(loaders, dir) is Some {
            registry_lookup(loaders, dir)
        } else if dir == l.dir_view() {
            Some(l.snap())
        } else {
            None
        }),
    decreases loaders.len(),
{
    if loaders.len() == 0 {
        assert(loaders.push(l).drop_first() =~= Seq::<SkillLoader>::empty());
        assert(loaders.push(l)[0] == l);
        assert(registry_lookup(Seq::<SkillLoader>::empty(), dir) is None);
    } else {
        assert(loaders.push(l).drop_first() =~= loaders.drop_first().push(l));
        assert(loaders.push(l)[0] == loaders[0]);
        assert(loaders[0].dir_view() != l.dir_view());
        assert(registry_lookup(loaders.drop_first(), l.dir_view()) is None);
        lemma_registry_push(loaders.drop_first(), l, dir);
        if loaders[0].dir_view() != dir {
            assert(registry_lookup(loaders.push(l), dir) == registry_lookup(
                loaders.drop_first().push(l),
                dir,
            ));
            assert(registry_lookup(loaders, dir) == registry_lookup(loaders.drop_first(), dir));
        }
    }
}

/// The skills of the directory `dir`: those held from an earlier read when the
/// directory was read before (the files are then not looked at), otherwise those
/// of `files` (the `SKILL.md` files found under `dir`), which are then held for
/// later calls. Fails with the message of the first rejected file, holding nothing.
pub fn load_skills(registry: &mut SkillRegistry, dir: &str, files: &Vec<SkillFile>) -> (r: Result<
    Vec<Skill>,
    SkillError,
>)
    requires
        old(registry).wf(),
    ensures
        final(registry).wf(),
        match old(registry).cached(dir@) {
            Some(snap) => r matches Ok(v) && skill_models(v@) == snap && *final(registry)
                == *old(registry),
            None => match (r, load_files(file_models(files@))) {
                (Ok(v), Ok(snap)) => {
                    &&& skill_models(v@) == snap
                    &&& final(registry).cached(dir@) == Some(snap)
                    &&& forall|d: Seq<char>| d != dir@ ==> final(registry).cached(d) == old(
                        registry,
                    ).cached(d)
                },
                (Err(SkillError::Io(e)), Err(m)) => e@ == m && *final(registry) == *old(
                    registry,
                ),
                _ => false,
            },
        },
{
    match registry.position(dir) {
        Some(i) => Ok(registry.loaders[i].skills()),
        None => {
            let loader = SkillLoader::new(dir, files)?;
            let skills = loader.skills();
            let ghost before = registry.loaders@;
            registry.loaders.push(loader);
            proof {
                assert forall|d: Seq<char>| true implies registry.cached(d) == (if registry_lookup(
                    before,
                    d,
                ) is Some {
                    registry_lookup(before, d)
                } else if d == dir@ {
                    Some(skill_models(skills@))
                } else {
                    None
                }) by {
                    lemma_registry_push(before, registry.loaders@.last(), d);
                }
                assert forall|k: int| 0 <= k < registry.loaders@.len() implies (#[trigger] registry.loaders@[k]).wf() by {
                    if k < before.len() {
                        assert(registry.loaders@[k] == before[k]);
                    }
                }
            }
            Ok(skills)
        },
    }
}

/// A text with each line feed written as a carriage return and a line feed, as
/// a file saved with Windows line ends holds it.
pub open spec fn with_crlf(t: Seq<char>) -> Seq<char>
    decreases t.len(),
{
    if t.len() == 0 {
        t
    } else if t[0] == '\n' {
        seq!['\r', '\n'] + with_crlf(t.drop_first())
    } else {
        seq![t[0]] + with_crlf(t.drop_first())
    }
}

/// Reading Windows line ends gives back the text with plain line feeds.
proof fn lemma_normalize_crlf(t: Seq<char>)
    requires
        forall|i: int| 0 <= i < t.len() ==> t[i] != '\r',
    ensures
        normalize_newlines(with_crlf(t)) == t,
    decreases t.len(),
{
    if t.len() > 0 {
        let rest = t.drop_first();
        lemma_normalize_crlf(rest);
        let w = with_crlf(t);
        if t[0] == '\n' {
            assert(w.skip(2) =~= with_crlf(rest));
        } else {
            assert(w[0] == t[0]);
            assert(w.drop_first() =~= with_crlf(rest));
        }
        assert(t =~= seq![t[0]] + rest);
    }
}

/// A text without carriage returns reads unchanged.
proof fn lemma_normalize_plain(t: Seq<char>)
    requires
        forall|i: int| 0 <= i < t.len() ==> t[i] != '\r',
    ensures
        normalize_newlines(t) == t,
    decreases t.len(),
{
    if t.len() > 0 {
        lemma_normalize_plain(t.drop_first());
        assert(t =~= seq![t[0]] + t.drop_first());
    }
}

/// Line ends do not matter: a skill file saved with Windows line ends (`\r\n`)
/// parses to the same skill, or the same error, as the file with plain line
/// feeds.
pub proof fn lemma_parse_skill_line_ends(t: Seq<char>, path: Seq<char>)
    requires
        forall|i: int| 0 <= i < t.len() ==> t[i] != '\r',
    ensures
        parse_skill(with_crlf(t), path) == parse_skill(t, path),
{
    lemma_normalize_crlf(t);
    lemma_normalize_plain(t);
}

} // verus!
