//! The built-in tools and what the tool registry reports: tool errors, the
//! `echo` and `read_file` tools' argument handling and results, and the sorted
//! list of tool names.
use vstd::prelude::*;
use vstd::string::*;
use crate::json::{JsonValue, get_spec, as_str_spec, object1};
use crate::sync::{text_less, text_less_exec};
use crate::text::str_eq;
use crate::sync_laws::{lemma_text_less_irreflexive, lemma_text_less_total, lemma_text_less_transitive, lemma_text_less_asymmetric};

verus! {

/// Why a tool failed.
#[derive(Clone, Debug, PartialEq, Eq)]
pub enum ToolError {
    Serialization(String),
    Execution(String),
    NotFound(String),
}

/// The text of a tool error.
pub open spec fn tool_error_text(e: ToolError) -> Seq<char> {
    match e {
        ToolError::Serialization(m) => "Serialization error: "@ + m@,
        ToolError::Execution(m) => "Execution error: "@ + m@,
        ToolError::NotFound(m) => "Tool not found: "@ + m@,
    }
}

impl ToolError {
    /// The text of the error.
    pub fn to_string(&self) -> (r: String)
        ensures
            r@ == tool_error_text(*self),
    {
        let (mut s, m) = match self {
            ToolError::Serialization(m) => ("Serialization error: ".to_string(), m),
            ToolError::Execution(m) => ("Execution error: ".to_string(), m),
            ToolError::NotFound(m) => ("Tool not found: ".to_string(), m),
        };
        s.append(m.as_str());
        s
    }
}

/// The `echo` tool: answers `{"text": …}` with the `text` argument.
#[derive(Clone, Copy, Debug, PartialEq, Eq)]
pub struct EchoTool;

impl EchoTool {
    /// The tool's name.
    pub fn name(&self) -> (r: &'static str)
        ensures
            r@ == "echo"@,
    {
        "echo"
    }

    /// What the tool does.
    pub fn description(&self) -> (r: &'static str)
        ensures
            r@ == "Echoes back input text"@,
    {
        "Echoes back input text"
    }

    /// Echoes the `text` argument (empty when it is missing or not a string).
    pub fn execute(&self, args: &JsonValue) -> (r: Result<JsonValue, ToolError>)
        ensures
            r matches Ok(JsonValue::Object(m)) && m@.len() == 1 && m@[0].0@ == "text"@ && (
            m@[0].1 matches JsonValue::Str(t)) && m@[0].1->Str_0@ == (match as_str_spec(
                get_spec(*args, "text"@),
            ) {
                Some(s) => s,
                None => Seq::<char>::empty(),
            }),
    {
        let text = match args.get("text") {
            Some(t) => match t.as_str() {
                Some(s) => s.clone(),
                None => String::new(),
            },
            None => String::new(),
        };
        Ok(object1("text", JsonValue::Str(text)))
    }
}

/// The `read_file` tool: answers `{"content": …}` with the text of the file
/// at the `path` argument.
#[derive(Clone, Copy, Debug, PartialEq, Eq)]
pub struct ReadFileTool;

impl ReadFileTool {
    /// The tool's name.
    pub fn name(&self) -> (r: &'static str)
        ensures
            r@ == "read_file"@,
    {
        "read_file"
    }

    /// What the tool does.
    pub fn description(&self) -> (r: &'static str)
        ensures
            r@ == "Read the contents of a file from the host filesystem"@,
    {
        "Read the contents of a file from the host filesystem"
    }

    /// The path to read: the `path` argument, which must be a string.
    pub fn path_arg(&self, args: &JsonValue) -> (r: Result<String, ToolError>)
        ensures
            match as_str_spec(get_spec(*args, "path"@)) {
                Some(p) => r matches Ok(s) && s@ == p,
                None => r matches Err(ToolError::Execution(m)) && m@ == "Missing 'path' parameter"@,
            },
    {
        match args.get("path") {
            Some(t) => match t.as_str() {
                Some(s) => Ok(s.clone()),
                None => Err(ToolError::Execution("Missing 'path' parameter".to_string())),
            },
            None => Err(ToolError::Execution("Missing 'path' parameter".to_string())),
        }
    }

    /// The result for the file's contents, or the error for a failed read with
    /// the reason's text.
    pub fn finish(&self, path: &str, read: Result<String, String>) -> (r: Result<JsonValue, ToolError>)
        ensures
            match read {
                Ok(c) => r matches Ok(JsonValue::Object(m)) && m@.len() == 1 && m@[0].0@ == "content"@
                    && m@[0].1 == JsonValue::Str(c),
                Err(e) => r matches Err(ToolError::Execution(m)) && m@ == "Failed to read file '"@
                    + path@ + "': "@ + e@,
            },
    {
        match read {
            Ok(c) => Ok(object1("content", JsonValue::Str(c))),
            Err(e) => {
                let mut m = "Failed to read file '".to_string();
                m.append(path);
                m.append("': ");
                m.append(e.as_str());
                Err(ToolError::Execution(m))
            },
        }
    }
}

/// Names in increasing order of `String`.
pub open spec fn names_sorted(s: Seq<String>) -> bool {
    forall|i: int, j: int| 0 <= i < j < s.len() ==> !text_less(s[j]@, s[i]@)
}

/// Inserts a name after those that are not greater.
pub open spec fn insert_name(s: Seq<String>, x: String) -> Seq<String>
    decreases s.len(),
{
    if s.len() == 0 {
        seq![x]
    } else if text_less(x@, s.last()@) {
        insert_name(s.drop_last(), x).push(s.last())
    } else {
        s.push(x)
    }
}

/// The names sorted (a stable insertion sort).
pub open spec fn sort_names(s: Seq<String>) -> Seq<String>
    decreases s.len(),
{
    if s.len() == 0 {
        Seq::empty()
    } else {
        insert_name(sort_names(s.drop_last()), s.last())
    }
}

fn insert_sorted_name(v: &mut Vec<String>, x: String)
    ensures
        final(v)@ == insert_name(old(v)@, x),
{
    let ghost s = v@;
    let mut k = v.len();
    proof {
        assert(s.take(k as int) =~= s);
        assert(s.skip(k as int) =~= Seq::<String>::empty());
        assert(insert_name(s, x) =~= insert_name(s.take(k as int), x) + s.skip(k as int));
    }
    while k > 0 && text_less_exec(&x, &v[k - 1])
        invariant
            k <= v@.len(),
            s == v@,
            insert_name(s, x) == insert_name(s.take(k as int), x) + s.skip(k as int),
        decreases k,
    {
        proof {
            let u = s.take(k as int);
            assert(u.drop_last() =~= s.take(k - 1));
            assert(u.last() == s[k - 1]);
            assert(s.skip(k - 1) =~= seq![s[k - 1]] + s.skip(k as int));
            assert(insert_name(s.take(k - 1), x).push(s[k - 1]) + s.skip(k as int)
                =~= insert_name(s.take(k - 1), x) + s.skip(k - 1));
        }
        k = k - 1;
    }
    proof {
        if k > 0 {
            let u = s.take(k as int);
            assert(u.last() == s[k - 1]);
        }
        assert(insert_name(s.take(k as int), x) =~= s.take(k as int).push(x));
        assert(s.take(k as int).push(x) + s.skip(k as int) =~= s.insert(k as int, x));
    }
    v.insert(k, x);
}

/// The tool names in increasing order (what the registry lists).
pub fn sorted_names(names: Vec<String>) -> (r: Vec<String>)
    ensures
        r@ == sort_names(names@),
{
    let mut out: Vec<String> = Vec::new();
    let mut i: usize = 0;
    proof {
        assert(names@.take(0) =~= Seq::<String>::empty());
    }
    while i < names.len()
        invariant
            i <= names@.len(),
            out@ == sort_names(names@.take(i as int)),
        decreases names@.len() - i,
    {
        proof {
            let pre = names@.take(i + 1);
            assert(pre.drop_last() =~= names@.take(i as int));
            assert(pre.last() == names@[i as int]);
        }
        insert_sorted_name(&mut out, names[i].clone());
        i = i + 1;
    }
    proof {
        assert(names@.take(names@.len() as int) =~= names@);
    }
    out
}

proof fn lemma_insert_name(s: Seq<String>, x: String)
    ensures
        insert_name(s, x).len() == s.len() + 1,
        forall|y: String| #[trigger] insert_name(s, x).contains(y) <==> (s.contains(y) || y == x),
        names_sorted(s) ==> names_sorted(insert_name(s, x)),
    decreases s.len(),
{
    let r = insert_name(s, x);
    if s.len() == 0 {
        assert forall|y: String| r.contains(y) <==> (s.contains(y) || y == x) by {
            if r.contains(y) {
                assert(r[0] == y);
            }
            if y == x {
                assert(r[0] == x);
            }
        }
    } else {
        let init = s.drop_last();
        let last = s.last();
        lemma_insert_name(init, x);
        assert(s =~= init.push(last));
        if text_less(x@, last@) {
            let inner = insert_name(init, x);
            assert(r == inner.push(last));
            assert forall|y: String| r.contains(y) <==> (s.contains(y) || y == x) by {
                if r.contains(y) {
                    let k = choose|k: int| 0 <= k < r.len() && r[k] == y;
                    if k < inner.len() {
                        assert(inner[k] == y);
                        assert(inner.contains(y));
                        if init.contains(y) {
                            let m = choose|m: int| 0 <= m < init.len() && init[m] == y;
                            assert(s[m] == y);
                        }
                    } else {
                        assert(s[s.len() - 1] == y);
                    }
                }
                if s.contains(y) {
                    let k = choose|k: int| 0 <= k < s.len() && s[k] == y;
                    if k < init.len() {
                        assert(init[k] == y);
                        assert(inner.contains(y));
                        let m = choose|m: int| 0 <= m < inner.len() && inner[m] == y;
                        assert(r[m] == y);
                    } else {
                        assert(r[r.len() - 1] == y);
                    }
                }
                if y == x {
                    assert(inner.contains(x));
                    let m = choose|m: int| 0 <= m < inner.len() && inner[m] == x;
                    assert(r[m] == x);
                }
            }
            if names_sorted(s) {
                assert(names_sorted(init));
                assert forall|i: int, j: int| 0 <= i < j < r.len() implies !text_less(r[j]@, r[i]@) by {
                    if j == r.len() - 1 {
                        assert(inner.contains(r[i]));
                        if init.contains(r[i]) {
                            let m = choose|m: int| 0 <= m < init.len() && init[m] == r[i];
                            assert(s[m] == r[i]);
                            assert(!text_less(last@, s[m]@));
                        } else {
                            lemma_text_less_asymmetric(x@, last@);
                        }
                    } else {
                        assert(r[i] == inner[i] && r[j] == inner[j]);
                    }
                }
            }
        } else {
            assert(r == s.push(x));
            assert forall|y: String| r.contains(y) <==> (s.contains(y) || y == x) by {
                if r.contains(y) {
                    let k = choose|k: int| 0 <= k < r.len() && r[k] == y;
                    if k < s.len() {
                        assert(s[k] == y);
                    }
                }
                if s.contains(y) {
                    let k = choose|k: int| 0 <= k < s.len() && s[k] == y;
                    assert(r[k] == y);
                }
                if y == x {
                    assert(r[s.len() as int] == x);
                }
            }
            if names_sorted(s) {
                assert forall|i: int, j: int| 0 <= i < j < r.len() implies !text_less(r[j]@, r[i]@) by {
                    if j == r.len() - 1 {
                        if i < s.len() - 1 {
                            assert(!text_less(last@, s[i]@));
                            if text_less(x@, s[i]@) {
                                if last@ == s[i]@ {
                                } else {
                                    lemma_text_less_total(last@, s[i]@);
                                    lemma_text_less_transitive(x@, s[i]@, last@);
                                }
                            }
                        }
                    } else {
                        assert(r[i] == s[i] && r[j] == s[j]);
                    }
                }
            }
        }
    }
}

/// The registry lists every tool name, and in increasing order.
pub proof fn lemma_sorted_names(s: Seq<String>)
    ensures
        sort_names(s).len() == s.len(),
        forall|y: String| #[trigger] sort_names(s).contains(y) <==> s.contains(y),
        names_sorted(sort_names(s)),
    decreases s.len(),
{
    if s.len() > 0 {
        let init = s.drop_last();
        lemma_sorted_names(init);
        lemma_insert_name(sort_names(init), s.last());
        assert(s =~= init.push(s.last()));
        assert forall|y: String| sort_names(s).contains(y) <==> s.contains(y) by {
            if s.contains(y) {
                let k = choose|k: int| 0 <= k < s.len() && s[k] == y;
                if k < init.len() {
                    assert(init[k] == y);
                }
            }
            if init.contains(y) {
                let k = choose|k: int| 0 <= k < init.len() && init[k] == y;
                assert(s[k] == y);
            }
        }
    }
}

/// No two names of the sequence are the same text.
pub open spec fn names_distinct(s: Seq<String>) -> bool {
    forall|i: int, j: int| 0 <= i < j < s.len() ==> s[i]@ != s[j]@
}

/// Inserting a name that is not there yet keeps the names distinct.
proof fn lemma_insert_name_distinct(s: Seq<String>, x: String)
    requires
        names_distinct(s),
        forall|k: int| 0 <= k < s.len() ==> s[k]@ != x@,
    ensures
        names_distinct(insert_name(s, x)),
    decreases s.len(),
{
    lemma_insert_name(s, x);
    if s.len() > 0 {
        let init = s.drop_last();
        let last = s.last();
        if text_less(x@, last@) {
            lemma_insert_name_distinct(init, x);
            let inner = insert_name(init, x);
            lemma_insert_name(init, x);
            let r = inner.push(last);
            assert forall|i: int, j: int| 0 <= i < j < r.len() implies r[i]@ != r[j]@ by {
                if j == r.len() - 1 {
                    assert(inner.contains(inner[i]));
                    if inner[i] != x {
                        let m = choose|m: int| 0 <= m < init.len() && init[m] == inner[i];
                        assert(s[m] == init[m]);
                        assert(s[s.len() - 1] == last);
                    }
                } else {
                    assert(r[i] == inner[i] && r[j] == inner[j]);
                }
            }
        } else {
            let r = s.push(x);
            assert forall|i: int, j: int| 0 <= i < j < r.len() implies r[i]@ != r[j]@ by {
                if j == r.len() - 1 {
                    assert(r[i] == s[i]);
                } else {
                    assert(r[i] == s[i] && r[j] == s[j]);
                }
            }
        }
    }
}

/// The registry lists its tools strictly in increasing order: the names of
/// distinct tools, sorted, strictly increase, and are exactly those names.
pub proof fn lemma_sorted_names_strict(s: Seq<String>)
    requires
        names_distinct(s),
    ensures
        sort_names(s).len() == s.len(),
        forall|y: String| #[trigger] sort_names(s).contains(y) <==> s.contains(y),
        forall|i: int, j: int|
            0 <= i < j < sort_names(s).len() ==> text_less(sort_names(s)[i]@, sort_names(s)[j]@),
    decreases s.len(),
{
    lemma_sorted_names(s);
    if s.len() > 0 {
        let init = s.drop_last();
        assert(names_distinct(init));
        lemma_sorted_names_strict(init);
        let si = sort_names(init);
        assert forall|k: int| 0 <= k < si.len() implies si[k]@ != s.last()@ by {
            assert(si.contains(si[k]));
            let m = choose|m: int| 0 <= m < init.len() && init[m] == si[k];
            assert(s[m] == init[m]);
        }
        assert forall|i: int, j: int| 0 <= i < j < si.len() implies si[i]@ != si[j]@ by {
            lemma_text_less_irreflexive(si[i]@);
        }
        lemma_insert_name_distinct(si, s.last());
    }
    let r = sort_names(s);
    assert forall|i: int, j: int| 0 <= i < j < r.len() implies text_less(r[i]@, r[j]@) by {
        if s.len() > 0 {
            assert(!text_less(r[j]@, r[i]@));
            assert(r[i]@ != r[j]@);
            lemma_text_less_total(r[i]@, r[j]@);
        }
    }
}

/// The names after registering `n`: a new name is added at the end, a known one
/// stays where it is (its tool is replaced).
pub open spec fn register_names(ns: Seq<Seq<char>>, n: Seq<char>) -> Seq<Seq<char>> {
    if ns.contains(n) {
        ns
    } else {
        ns.push(n)
    }
}

/// The names of a table after registering the names in order, from empty.
pub open spec fn names_after(regs: Seq<Seq<char>>) -> Seq<Seq<char>>
    decreases regs.len(),
{
    if regs.len() == 0 {
        Seq::empty()
    } else {
        register_names(names_after(regs.drop_last()), regs.last())
    }
}

/// The tool of the last entry with the name.
pub open spec fn find_tool<T>(es: Seq<(String, T)>, n: Seq<char>) -> Option<T>
    decreases es.len(),
{
    if es.len() == 0 {
        None
    } else if es.last().0@ == n {
        Some(es.last().1)
    } else {
        find_tool(es.drop_last(), n)
    }
}

/// No two entries share a name.
pub open spec fn entry_names_distinct<T>(es: Seq<(String, T)>) -> bool {
    forall|i: int, j: int| 0 <= i < j < es.len() ==> es[i].0@ != es[j].0@
}

/// In entries with distinct names, the tool of a name is that of its entry, and
/// there is none for a name no entry has.
proof fn lemma_find_tool<T>(es: Seq<(String, T)>, n: Seq<char>)
    requires
        entry_names_distinct(es),
    ensures
        forall|i: int| 0 <= i < es.len() && es[i].0@ == n ==> find_tool(es, n) == Some(es[i].1),
        (forall|i: int| 0 <= i < es.len() ==> es[i].0@ != n) ==> find_tool(es, n) is None,
    decreases es.len(),
{
    if es.len() > 0 {
        let init = es.drop_last();
        lemma_find_tool(init, n);
        assert forall|i: int| 0 <= i < es.len() && es[i].0@ == n implies find_tool(es, n) == Some(
            es[i].1,
        ) by {
            if i < es.len() - 1 {
                assert(init[i] == es[i]);
                assert(es[i].0@ != es[es.len() - 1].0@);
            }
        }
        if forall|i: int| 0 <= i < es.len() ==> es[i].0@ != n {
            assert forall|i: int| 0 <= i < init.len() implies init[i].0@ != n by {
                assert(init[i] == es[i]);
            }
            assert(es[es.len() - 1].0@ != n);
        }
    }
}

/// A table of tools by name, in the order their names were first registered;
/// registering a name again replaces its tool.
pub struct ToolTable<T> {
    entries: Vec<(String, T)>,
}

impl<T> ToolTable<T> {
    #[verifier::type_invariant]
    spec fn inv(&self) -> bool {
        entry_names_distinct(self.entries@)
    }

    /// The names of the table's tools, in the order they were first registered.
    pub closed spec fn names(&self) -> Seq<Seq<char>> {
        self.entries@.map_values(|e: (String, T)| e.0@)
    }

    /// The tool registered under the name, if any.
    pub closed spec fn tool(&self, n: Seq<char>) -> Option<T> {
        find_tool(self.entries@, n)
    }

    /// An empty table.
    pub fn new() -> (r: ToolTable<T>)
        ensures
            r.names() == Seq::<Seq<char>>::empty(),
            forall|n: Seq<char>| r.tool(n) is None,
    {
        let r = ToolTable { entries: Vec::new() };
        proof {
            assert(r.names() =~= Seq::<Seq<char>>::empty());
        }
        r
    }

    /// Where the name is in the entries, if it is there.
    fn position(&self, name: &str) -> (r: Option<usize>)
        ensures
            match r {
                Some(i) => i < self.entries@.len() && self.entries@[i as int].0@ == name@,
                None => forall|i: int| 0 <= i < self.entries@.len() ==> self.entries@[i].0@ != name@,
            },
    {
        let mut i: usize = 0;
        while i < self.entries.len()
            invariant
                i <= self.entries@.len(),
                forall|j: int| 0 <= j < i ==> self.entries@[j].0@ != name@,
            decreases self.entries@.len() - i,
        {
            if str_eq(self.entries[i].0.as_str(), name) {
                return Some(i);
            }
            i = i + 1;
        }
        None
    }

    /// Registers a tool under a name; a name registered before keeps its place
    /// and gets the new tool.
    pub fn register(&mut self, name: String, tool: T)
        ensures
            final(self).names() == register_names(old(self).names(), name@),
            final(self).tool(name@) == Some(tool),
            forall|n: Seq<char>| n != name@ ==> final(self).tool(n) == old(self).tool(n),
    {
        proof {
            use_type_invariant(&*self);
        }
        let ghost old_entries = self.entries@;
        let ghost nv = name@;
        let pos = self.position(name.as_str());
        let mut entries: Vec<(String, T)> = Vec::new();
        std::mem::swap(&mut entries, &mut self.entries);
        match pos {
            Some(i) => {
                entries.set(i, (name, tool));
                proof {
                    let ns = old_entries.map_values(|e: (String, T)| e.0@);
                    assert(ns[i as int] == nv);
                    assert(ns.contains(nv));
                    assert(entries@.map_values(|e: (String, T)| e.0@) =~= ns);
                    assert(entry_names_distinct(entries@));
                    lemma_find_tool(entries@, nv);
                    assert forall|n: Seq<char>| n != nv implies find_tool(entries@, n) == find_tool(
                        old_entries,
                        n,
                    ) by {
                        lemma_find_tool(entries@, n);
                        lemma_find_tool(old_entries, n);
                        if exists|k: int| 0 <= k < old_entries.len() && old_entries[k].0@ == n {
                            let k = choose|k: int| 0 <= k < old_entries.len() && old_entries[k].0@ == n;
                            assert(entries@[k] == old_entries[k]);
                        } else {
                            assert forall|k: int| 0 <= k < entries@.len() implies entries@[k].0@ != n by {
                                if k != i {
                                    assert(entries@[k] == old_entries[k]);
                                }
                            }
                        }
                    }
                }
            },
            None => {
                entries.push((name, tool));
                proof {
                    let ns = old_entries.map_values(|e: (String, T)| e.0@);
                    assert(!ns.contains(nv)) by {
                        if ns.contains(nv) {
                            let k = choose|k: int| 0 <= k < ns.len() && ns[k] == nv;
                            assert(old_entries[k].0@ == nv);
                        }
                    }
                    assert(entries@.map_values(|e: (String, T)| e.0@) =~= ns.push(nv));
                    assert(entries@.drop_last() =~= old_entries);
                    assert(entry_names_distinct(entries@)) by {
                        assert forall|a: int, b: int| 0 <= a < b < entries@.len() implies entries@[a].0@
                            != entries@[b].0@ by {
                            if b < entries@.len() - 1 {
                                assert(entries@[a] == old_entries[a]);
                                assert(entries@[b] == old_entries[b]);
                            } else {
                                assert(entries@[a] == old_entries[a]);
                            }
                        }
                    }
                }
            },
        }
        self.entries = entries;
    }

    /// The tool registered under the name, if any.
    pub fn get(&self, name: &str) -> (r: Option<&T>)
        ensures
            match r {
                Some(t) => self.tool(name@) == Some(*t),
                None => self.tool(name@) is None,
            },
    {
        proof {
            use_type_invariant(self);
            lemma_find_tool(self.entries@, name@);
        }
        match self.position(name) {
            Some(i) => Some(&self.entries[i].1),
            None => None,
        }
    }

    /// The registered names in strictly increasing order: each name once.
    pub fn list(&self) -> (r: Vec<String>)
        ensures
            r@.len() == self.names().len(),
            forall|i: int| 0 <= i < r@.len() ==> self.names().contains(#[trigger] r@[i]@),
            forall|n: Seq<char>|
                self.names().contains(n) ==> exists|i: int| 0 <= i < r@.len() && #[trigger] r@[i]@ == n,
            forall|i: int, j: int| 0 <= i < j < r@.len() ==> text_less(r@[i]@, r@[j]@),
    {
        proof {
            use_type_invariant(self);
        }
        let mut names: Vec<String> = Vec::new();
        let mut k: usize = 0;
        while k < self.entries.len()
            invariant
                k <= self.entries@.len(),
                names@.len() == k,
                forall|j: int| 0 <= j < k ==> #[trigger] names@[j]@ == self.entries@[j].0@,
            decreases self.entries@.len() - k,
        {
            names.push(self.entries[k].0.clone());
            k = k + 1;
        }
        let ghost s = names@;
        proof {
            assert(names_distinct(s));
            lemma_sorted_names_strict(s);
        }
        let r = sorted_names(names);
        proof {
            let ns = self.names();
            assert forall|i: int| 0 <= i < r@.len() implies ns.contains(#[trigger] r@[i]@) by {
                assert(sort_names(s).contains(r@[i]));
                let m = choose|m: int| 0 <= m < s.len() && s[m] == r@[i];
                assert(ns[m] == r@[i]@);
            }
            assert forall|n: Seq<char>| ns.contains(n) implies exists|i: int|
                0 <= i < r@.len() && #[trigger] r@[i]@ == n by {
                let m = choose|m: int| 0 <= m < ns.len() && ns[m] == n;
                assert(s[m]@ == n);
                assert(s.contains(s[m]));
                assert(sort_names(s).contains(s[m]));
                let i = choose|i: int| 0 <= i < r@.len() && r@[i] == s[m];
                assert(r@[i]@ == n);
            }
        }
        r
    }
}

/// A table lists each registered name once: registering names in any order,
/// repeats allowed, leaves exactly the distinct names, none twice (and `list`
/// gives them in strictly increasing order).
pub proof fn lemma_registered_names(regs: Seq<Seq<char>>)
    ensures
        names_after(regs).no_duplicates(),
        forall|n: Seq<char>| names_after(regs).contains(n) <==> regs.contains(n),
    decreases regs.len(),
{
    if regs.len() > 0 {
        let init = regs.drop_last();
        lemma_registered_names(init);
        let ns = names_after(init);
        let x = regs.last();
        assert(regs =~= init.push(x));
        if !ns.contains(x) {
            assert forall|i: int, j: int| 0 <= i < ns.push(x).len() && 0 <= j < ns.push(x).len()
                && i != j implies ns.push(x)[i] != ns.push(x)[j] by {
                if i == ns.len() as int {
                    assert(ns.contains(ns[j]));
                } else if j == ns.len() as int {
                    assert(ns.contains(ns[i]));
                }
            }
        }
        assert forall|n: Seq<char>| names_after(regs).contains(n) <==> regs.contains(n) by {
            if regs.contains(n) && n != x {
                let k = choose|k: int| 0 <= k < regs.len() && regs[k] == n;
                assert(init[k] == n);
            }
            if init.contains(n) {
                let k = choose|k: int| 0 <= k < init.len() && init[k] == n;
                assert(regs[k] == n);
            }
            if names_after(regs).contains(n) && !ns.contains(n) {
                let k = choose|k: int| 0 <= k < names_after(regs).len() && names_after(regs)[k] == n;
                if k < ns.len() {
                    assert(ns[k] == n);
                }
            }
            if ns.contains(n) {
                let k = choose|k: int| 0 <= k < ns.len() && ns[k] == n;
                if !ns.contains(x) {
                    assert(ns.push(x)[k] == n);
                }
            }
            if n == x && !ns.contains(x) {
                assert(ns.push(x)[ns.len() as int] == x);
            }
        }
    }
}

} // verus!
