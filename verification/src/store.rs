//! The manifest store: rendering a `Config` to text and parsing it
//! back.
//!
//! The format is line-based.  Three headers — `[project]`,
//! `[packages]`, `[scripts]` — open the three tables; every other
//! non-empty line is `"key" = "value"` with both strings escaped, so
//! that any key and any value round-trips exactly.
//!
//! The parser accepts exactly this dialect: a manifest written by
//! hand in a laxer one (bare keys, comments, other escapes) is
//! rejected with a parse error rather than guessed at.

use vstd::prelude::*;
use crate::manifest::{
    has_key, table_view, unique_keys, Config, ConfigView, Project, ProjectView, TableView,
    table_contains_key,
};
use crate::text::{
    chars_of_str, chars_of_string, chars_eq, lines_view, push_str_chars, split_lines,
    split_lines_exec, str_eq, string_of_chars,
};
use crate::engine::opt_view;

verus! {

/// How one character is written inside quotes.
pub open spec fn escape_char(c: char) -> Seq<char> {
    if c == '\\' {
        seq!['\\', '\\']
    } else if c == '"' {
        seq!['\\', '"']
    } else if c == '\n' {
        seq!['\\', 'n']
    } else if c == '\r' {
        seq!['\\', 'r']
    } else {
        seq![c]
    }
}

/// How a whole string is written inside quotes.
pub open spec fn escape(s: Seq<char>) -> Seq<char>
    decreases s.len(),
{
    if s.len() == 0 {
        Seq::empty()
    } else {
        escape_char(s[0]) + escape(s.drop_first())
    }
}

/// The character named by an escape pair `\d`.
pub open spec fn unescape_char(d: char) -> char {
    if d == 'n' {
        '\n'
    } else if d == 'r' {
        '\r'
    } else {
        d
    }
}

/// A string in its written form: escaped, between quotes.
pub open spec fn quoted(s: Seq<char>) -> Seq<char> {
    seq!['"'] + escape(s) + seq!['"']
}

/// One key-value line, without its newline.
pub open spec fn kv_line(k: Seq<char>, v: Seq<char>) -> Seq<char> {
    quoted(k) + seq![' ', '=', ' '] + quoted(v)
}

/// A table rendered as one key-value line per pair, each closed by a
/// newline.
pub open spec fn render_table(t: TableView) -> Seq<char>
    decreases t.len(),
{
    if t.len() == 0 {
        Seq::empty()
    } else {
        kv_line(t[0].0, t[0].1) + seq!['\n'] + render_table(t.drop_first())
    }
}

/// The whole manifest in its written form.
pub open spec fn save_spec(c: ConfigView) -> Seq<char> {
    "[project]"@ + seq!['\n'] + kv_line("name"@, c.project.name) + seq!['\n'] + kv_line(
        "version"@,
        c.project.version,
    ) + seq!['\n'] + kv_line("description"@, c.project.description) + seq!['\n'] + kv_line(
        "main_script"@,
        c.project.main_script,
    ) + seq!['\n'] + "[packages]"@ + seq!['\n'] + render_table(c.packages) + "[scripts]"@
        + seq!['\n'] + render_table(c.scripts)
}

/// Escaping distributes over concatenation.
pub proof fn lemma_escape_app(a: Seq<char>, b: Seq<char>)
    ensures
        escape(a + b) == escape(a) + escape(b),
    decreases a.len(),
{
    if a.len() == 0 {
        assert(a + b =~= b);
        assert(escape(a) + escape(b) =~= escape(b));
    } else {
        assert((a + b).len() > 0);
        assert((a + b)[0] == a[0]);
        assert((a + b).drop_first() =~= a.drop_first() + b);
        lemma_escape_app(a.drop_first(), b);
        assert(escape(a + b) =~= escape_char(a[0]) + (escape(a.drop_first()) + escape(b)));
        assert(escape(a) + escape(b) =~= escape_char(a[0]) + (escape(a.drop_first()) + escape(b)));
    }
}

/// Escaping a single character yields exactly its escape pair.
pub proof fn lemma_escape_one(c: char)
    ensures
        escape(seq![c]) == escape_char(c),
{
    let s = seq![c];
    assert(s.drop_first() =~= Seq::<char>::empty());
    assert(escape(Seq::<char>::empty()) =~= Seq::<char>::empty());
    assert(escape(s) =~= escape_char(c) + Seq::<char>::empty());
    assert(escape_char(c) + Seq::<char>::empty() =~= escape_char(c));
}

/// Rendering distributes over table concatenation.
pub proof fn lemma_render_table_app(a: TableView, b: TableView)
    ensures
        render_table(a + b) == render_table(a) + render_table(b),
    decreases a.len(),
{
    if a.len() == 0 {
        assert(a + b =~= b);
        assert(render_table(a) + render_table(b) =~= render_table(b));
    } else {
        assert((a + b).len() > 0);
        assert((a + b)[0] == a[0]);
        assert((a + b).drop_first() =~= a.drop_first() + b);
        lemma_render_table_app(a.drop_first(), b);
        assert(render_table(a + b) =~= kv_line(a[0].0, a[0].1) + seq!['\n'] + (render_table(
            a.drop_first(),
        ) + render_table(b)));
        assert(render_table(a) + render_table(b) =~= kv_line(a[0].0, a[0].1) + seq!['\n'] + (
        render_table(a.drop_first()) + render_table(b)));
    }
}

/// Append the escaped form of `s` to `buf`.
fn push_escaped(buf: &mut Vec<char>, s: &str)
    ensures
        final(buf)@ == old(buf)@ + escape(s@),
{
    let v = chars_of_str(s);
    let n = v.len();
    let mut i: usize = 0;
    proof {
        assert(s@.subrange(0, 0) =~= Seq::<char>::empty());
        assert(buf@ + escape(s@.subrange(0, 0)) =~= buf@);
    }
    while i < n
        invariant
            0 <= i <= n,
            n == v@.len(),
            v@ == s@,
            buf@ == old(buf)@ + escape(s@.subrange(0, i as int)),
        decreases n - i,
    {
        let c = v[i];
        proof {
            lemma_escape_app(s@.subrange(0, i as int), seq![s@[i as int]]);
            lemma_escape_one(s@[i as int]);
            assert(s@.subrange(0, i + 1 as int) =~= s@.subrange(0, i as int) + seq![s@[i as int]]);
        }
        if c == '\\' {
            buf.push('\\');
            buf.push('\\');
        } else if c == '"' {
            buf.push('\\');
            buf.push('"');
        } else if c == '\n' {
            buf.push('\\');
            buf.push('n');
        } else if c == '\r' {
            buf.push('\\');
            buf.push('r');
        } else {
            buf.push(c);
        }
        proof {
            assert(buf@ =~= old(buf)@ + escape(s@.subrange(0, i + 1 as int)));
        }
        i += 1;
    }
    proof {
        assert(s@.subrange(0, n as int) =~= s@);
    }
}

/// Append `"key" = "value"` and a newline to `buf`.
fn push_kv(buf: &mut Vec<char>, k: &str, v: &str)
    ensures
        final(buf)@ == old(buf)@ + kv_line(k@, v@) + seq!['\n'],
{
    buf.push('"');
    push_escaped(buf, k);
    buf.push('"');
    buf.push(' ');
    buf.push('=');
    buf.push(' ');
    buf.push('"');
    push_escaped(buf, v);
    buf.push('"');
    buf.push('\n');
    proof {
        assert(buf@ =~= old(buf)@ + kv_line(k@, v@) + seq!['\n']);
    }
}

/// Append every pair of `t` as a key-value line.
fn push_table(buf: &mut Vec<char>, t: &Vec<(String, String)>)
    ensures
        final(buf)@ == old(buf)@ + render_table(table_view(t@)),
{
    let ghost tv = table_view(t@);
    let n = t.len();
    let mut i: usize = 0;
    proof {
        assert(tv.subrange(0, 0) =~= Seq::<(Seq<char>, Seq<char>)>::empty());
        assert(buf@ + render_table(tv.subrange(0, 0)) =~= buf@);
    }
    while i < n
        invariant
            0 <= i <= n,
            n == t@.len(),
            tv == table_view(t@),
            buf@ == old(buf)@ + render_table(tv.subrange(0, i as int)),
        decreases n - i,
    {
        push_kv(buf, t[i].0.as_str(), t[i].1.as_str());
        proof {
            lemma_render_table_app(tv.subrange(0, i as int), seq![tv[i as int]]);
            assert(seq![tv[i as int]].drop_first() =~= Seq::<(Seq<char>, Seq<char>)>::empty());
            assert(render_table(Seq::<(Seq<char>, Seq<char>)>::empty()) == Seq::<char>::empty());
            assert(render_table(seq![tv[i as int]]) =~= kv_line(tv[i as int].0, tv[i as int].1)
                + seq!['\n'] + render_table(seq![tv[i as int]].drop_first()));
            assert(render_table(seq![tv[i as int]]) =~= kv_line(tv[i as int].0, tv[i as int].1)
                + seq!['\n']);
            assert(tv.subrange(0, i + 1 as int) =~= tv.subrange(0, i as int) + seq![tv[i as int]]);
            assert(buf@ =~= old(buf)@ + render_table(tv.subrange(0, i + 1 as int)));
        }
        i += 1;
    }
    proof {
        assert(tv.subrange(0, n as int) =~= tv);
    }
}

/// Render the manifest to its on-disk text.
pub fn save(conf: &Config) -> (r: String)
    ensures
        r@ == save_spec(conf@),
{
    let mut buf: Vec<char> = Vec::new();
    push_str_chars(&mut buf, "[project]");
    buf.push('\n');
    push_kv(&mut buf, "name", conf.project.name.as_str());
    push_kv(&mut buf, "version", conf.project.version.as_str());
    push_kv(&mut buf, "description", conf.project.description.as_str());
    push_kv(&mut buf, "main_script", conf.project.main_script.as_str());
    push_str_chars(&mut buf, "[packages]");
    buf.push('\n');
    push_table(&mut buf, &conf.packages);
    push_str_chars(&mut buf, "[scripts]");
    buf.push('\n');
    push_table(&mut buf, &conf.scripts);
    proof {
        assert(buf@ =~= save_spec(conf@));
    }
    string_of_chars(&buf)
}

/// Read a quoted string out of `s` from position `i` (just after the
/// opening quote): unescape until the closing quote, yielding the
/// content and the position after that quote.
pub open spec fn parse_quoted(s: Seq<char>, i: int) -> Option<(Seq<char>, int)>
    decreases s.len() - i,
{
    if i < 0 || i >= s.len() {
        None
    } else if s[i] == '"' {
        Some((Seq::empty(), i + 1))
    } else if s[i] == '\\' {
        if i + 1 >= s.len() {
            None
        } else {
            match parse_quoted(s, i + 2) {
                Some((rest, j)) => Some((seq![unescape_char(s[i + 1])] + rest, j)),
                None => None,
            }
        }
    } else {
        match parse_quoted(s, i + 1) {
            Some((rest, j)) => Some((seq![s[i]] + rest, j)),
            None => None,
        }
    }
}

/// What one line of the file means.
pub enum LineKind {
    Blank,
    HeaderProject,
    HeaderPackages,
    HeaderScripts,
    Kv(Seq<char>, Seq<char>),
    Bad,
}

/// Classify one line: empty, one of the three headers, or a quoted
/// key-value pair.
pub open spec fn parse_line(l: Seq<char>) -> LineKind {
    if l.len() == 0 {
        LineKind::Blank
    } else if l == "[project]"@ {
        LineKind::HeaderProject
    } else if l == "[packages]"@ {
        LineKind::HeaderPackages
    } else if l == "[scripts]"@ {
        LineKind::HeaderScripts
    } else if l[0] == '"' {
        match parse_quoted(l, 1) {
            Some((k, j)) => {
                if j + 3 < l.len() && l[j] == ' ' && l[j + 1] == '=' && l[j + 2] == ' ' && l[j + 3]
                    == '"' {
                    match parse_quoted(l, j + 4) {
                        Some((v, e)) => {
                            if e == l.len() {
                                LineKind::Kv(k, v)
                            } else {
                                LineKind::Bad
                            }
                        },
                        None => LineKind::Bad,
                    }
                } else {
                    LineKind::Bad
                }
            },
            None => LineKind::Bad,
        }
    } else {
        LineKind::Bad
    }
}

/// Which table the lines read so far are filling.
#[derive(PartialEq, Eq, Structural, Clone, Copy, Debug)]
pub enum Section {
    Preamble,
    InProject,
    InPackages,
    InScripts,
}

/// The state of a parse in progress.
#[verifier::ext_equal]
pub struct ParseState {
    pub failed: bool,
    pub section: Section,
    pub name: Option<Seq<char>>,
    pub version: Option<Seq<char>>,
    pub description: Option<Seq<char>>,
    pub main_script: Option<Seq<char>>,
    pub packages: TableView,
    pub scripts: TableView,
}

/// The state before any line is read.
pub open spec fn init_state() -> ParseState {
    ParseState {
        failed: false,
        section: Section::Preamble,
        name: None,
        version: None,
        description: None,
        main_script: None,
        packages: Seq::empty(),
        scripts: Seq::empty(),
    }
}

/// Feed one line into the parse.  A key-value line before any header,
/// an unknown project key, a repeated project key, a repeated table
/// key or an unreadable line fails the parse; `main` is accepted as an
/// alias of `main_script`.
pub open spec fn parse_step(st: ParseState, l: Seq<char>) -> ParseState {
    if st.failed {
        st
    } else {
        match parse_line(l) {
            LineKind::Blank => st,
            LineKind::HeaderProject => ParseState { section: Section::InProject, ..st },
            LineKind::HeaderPackages => ParseState { section: Section::InPackages, ..st },
            LineKind::HeaderScripts => ParseState { section: Section::InScripts, ..st },
            LineKind::Bad => ParseState { failed: true, ..st },
            LineKind::Kv(k, v) => match st.section {
                Section::Preamble => ParseState { failed: true, ..st },
                Section::InProject => {
                    if k == "name"@ {
                        if st.name is Some {
                            ParseState { failed: true, ..st }
                        } else {
                            ParseState { name: Some(v), ..st }
                        }
                    } else if k == "version"@ {
                        if st.version is Some {
                            ParseState { failed: true, ..st }
                        } else {
                            ParseState { version: Some(v), ..st }
                        }
                    } else if k == "description"@ {
                        if st.description is Some {
                            ParseState { failed: true, ..st }
                        } else {
                            ParseState { description: Some(v), ..st }
                        }
                    } else if k == "main_script"@ || k == "main"@ {
                        if st.main_script is Some {
                            ParseState { failed: true, ..st }
                        } else {
                            ParseState { main_script: Some(v), ..st }
                        }
                    } else {
                        ParseState { failed: true, ..st }
                    }
                },
                Section::InPackages => {
                    if has_key(st.packages, k) {
                        ParseState { failed: true, ..st }
                    } else {
                        ParseState { packages: st.packages.push((k, v)), ..st }
                    }
                },
                Section::InScripts => {
                    if has_key(st.scripts, k) {
                        ParseState { failed: true, ..st }
                    } else {
                        ParseState { scripts: st.scripts.push((k, v)), ..st }
                    }
                },
            },
        }
    }
}

/// Feed a list of lines into the parse, in order.
pub open spec fn parse_lines_from(st: ParseState, ls: Seq<Seq<char>>) -> ParseState
    decreases ls.len(),
{
    if ls.len() == 0 {
        st
    } else {
        parse_lines_from(parse_step(st, ls[0]), ls.drop_first())
    }
}

/// What parsing a whole file yields: the manifest, or nothing when a
/// line fails or a project field is missing.
pub open spec fn load_spec(s: Seq<char>) -> Option<ConfigView> {
    let st = parse_lines_from(init_state(), split_lines(s));
    if !st.failed && st.name is Some && st.version is Some && st.description is Some
        && st.main_script is Some {
        Some(
            ConfigView {
                project: ProjectView {
                    name: st.name->0,
                    version: st.version->0,
                    description: st.description->0,
                    main_script: st.main_script->0,
                },
                packages: st.packages,
                scripts: st.scripts,
            },
        )
    } else {
        None
    }
}

/// A failed parse swallows every further line unchanged.
proof fn lemma_failed_stays(st: ParseState, ls: Seq<Seq<char>>)
    requires
        st.failed,
    ensures
        parse_lines_from(st, ls) == st,
    decreases ls.len(),
{
    if ls.len() > 0 {
        lemma_failed_stays(st, ls.drop_first());
    }
}

/// Feeding `ls` and then one more line is one more step.
proof fn lemma_parse_lines_snoc(st: ParseState, ls: Seq<Seq<char>>, l: Seq<char>)
    ensures
        parse_lines_from(st, ls.push(l)) == parse_step(parse_lines_from(st, ls), l),
    decreases ls.len(),
{
    if ls.len() == 0 {
        assert(ls.push(l)[0] == l);
        assert(ls.push(l).drop_first() =~= Seq::<Seq<char>>::empty());
        assert(parse_lines_from(st, ls.push(l)) == parse_lines_from(
            parse_step(st, l),
            ls.push(l).drop_first(),
        ));
        assert(parse_lines_from(parse_step(st, l), Seq::<Seq<char>>::empty()) == parse_step(
            st,
            l,
        ));
        assert(parse_lines_from(st, ls) == st);
    } else {
        assert(ls.push(l)[0] == ls[0]);
        assert(ls.push(l).drop_first() =~= ls.drop_first().push(l));
        lemma_parse_lines_snoc(parse_step(st, ls[0]), ls.drop_first(), l);
    }
}

/// Feeding two line lists in turn is feeding their concatenation.
proof fn lemma_parse_lines_app(st: ParseState, a: Seq<Seq<char>>, b: Seq<Seq<char>>)
    ensures
        parse_lines_from(st, a + b) == parse_lines_from(parse_lines_from(st, a), b),
    decreases a.len(),
{
    if a.len() == 0 {
        assert(a + b =~= b);
    } else {
        assert((a + b)[0] == a[0]);
        assert((a + b).drop_first() =~= a.drop_first() + b);
        lemma_parse_lines_app(parse_step(st, a[0]), a.drop_first(), b);
    }
}

/// A parse failure: the text is not a manifest this store wrote.
#[derive(Debug, PartialEq, Eq)]
pub struct ParseError;

/// What one classified line claims about its text.
spec fn token_matches(l: Seq<char>, t: &LineToken) -> bool {
    match t {
        LineToken::Blank => parse_line(l) == LineKind::Blank,
        LineToken::HeaderProject => parse_line(l) == LineKind::HeaderProject,
        LineToken::HeaderPackages => parse_line(l) == LineKind::HeaderPackages,
        LineToken::HeaderScripts => parse_line(l) == LineKind::HeaderScripts,
        LineToken::Kv(k, v) => parse_line(l) == LineKind::Kv(k@, v@),
        LineToken::Bad => parse_line(l) == LineKind::Bad,
    }
}

/// The executable classification of one line.
enum LineToken {
    Blank,
    HeaderProject,
    HeaderPackages,
    HeaderScripts,
    Kv(String, String),
    Bad,
}

/// Read a quoted string starting just after its opening quote.
fn parse_quoted_exec(l: &Vec<char>, start: usize) -> (r: Option<(Vec<char>, usize)>)
    requires
        start <= l@.len(),
    ensures
        match r {
            Some(p) => parse_quoted(l@, start as int) == Some((p.0@, p.1 as int)) && start < p.1
                <= l@.len(),
            None => parse_quoted(l@, start as int) is None,
        },
{
    let mut acc: Vec<char> = Vec::new();
    let mut cur: usize = start;
    proof {
        assert forall|rest: Seq<char>, j: int|
            parse_quoted(l@, cur as int) == Some::<(Seq<char>, int)>((rest, j)) implies parse_quoted(
            l@,
            start as int,
        ) == Some::<(Seq<char>, int)>((acc@ + rest, j)) by {
            assert(acc@ + rest =~= rest);
        }
    }
    loop
        invariant
            start <= cur <= l@.len(),
            forall|rest: Seq<char>, j: int|
                parse_quoted(l@, cur as int) == Some::<(Seq<char>, int)>((rest, j))
                    ==> parse_quoted(l@, start as int) == Some::<(Seq<char>, int)>(
                    (acc@ + rest, j),
                ),
            parse_quoted(l@, cur as int) is None ==> parse_quoted(l@, start as int) is None,
        decreases l@.len() - cur,
    {
        if cur >= l.len() {
            return None;
        }
        let c = l[cur];
        if c == '"' {
            proof {
                assert(parse_quoted(l@, cur as int) == Some((Seq::<char>::empty(), cur + 1 as int)));
                assert(acc@ + Seq::<char>::empty() =~= acc@);
            }
            return Some((acc, cur + 1));
        }
        if c == '\\' {
            if cur + 1 >= l.len() {
                return None;
            }
            let d = l[cur + 1];
            let u = if d == 'n' {
                '\n'
            } else if d == 'r' {
                '\r'
            } else {
                d
            };
            proof {
                assert(u == unescape_char(l@[cur + 1 as int]));
            }
            let ghost acc0 = acc@;
            acc.push(u);
            proof {
                assert forall|rest: Seq<char>, j: int|
                    parse_quoted(l@, cur + 2 as int) == Some::<(Seq<char>, int)>(
                        (rest, j),
                    ) implies parse_quoted(l@, start as int) == Some::<(Seq<char>, int)>(
                    (acc@ + rest, j),
                ) by {
                    assert(parse_quoted(l@, cur as int) == Some::<(Seq<char>, int)>(
                        (seq![unescape_char(l@[cur + 1 as int])] + rest, j),
                    ));
                    assert(acc0 + (seq![u] + rest) =~= acc@ + rest);
                }
            }
            cur = cur + 2;
        } else {
            let ghost acc0 = acc@;
            acc.push(c);
            proof {
                assert forall|rest: Seq<char>, j: int|
                    parse_quoted(l@, cur + 1 as int) == Some::<(Seq<char>, int)>(
                        (rest, j),
                    ) implies parse_quoted(l@, start as int) == Some::<(Seq<char>, int)>(
                    (acc@ + rest, j),
                ) by {
                    assert(parse_quoted(l@, cur as int) == Some::<(Seq<char>, int)>(
                        (seq![l@[cur as int]] + rest, j),
                    ));
                    assert(acc0 + (seq![c] + rest) =~= acc@ + rest);
                }
            }
            cur = cur + 1;
        }
    }
}

/// Classify one line of the file.
fn parse_line_exec(l: &Vec<char>) -> (t: LineToken)
    ensures
        token_matches(l@, &t),
{
    if l.len() == 0 {
        return LineToken::Blank;
    }
    let hp = chars_of_str("[project]");
    if chars_eq(l, &hp) {
        return LineToken::HeaderProject;
    }
    let hk = chars_of_str("[packages]");
    if chars_eq(l, &hk) {
        return LineToken::HeaderPackages;
    }
    let hs = chars_of_str("[scripts]");
    if chars_eq(l, &hs) {
        return LineToken::HeaderScripts;
    }
    if l[0] != '"' {
        return LineToken::Bad;
    }
    match parse_quoted_exec(l, 1) {
        None => LineToken::Bad,
        Some((k, j)) => {
            if l.len() - j > 3 {
                if l[j] == ' ' && l[j + 1] == '=' && l[j + 2] == ' ' && l[j + 3] == '"' {
                    match parse_quoted_exec(l, j + 4) {
                        None => LineToken::Bad,
                        Some((v, e)) => {
                            if e == l.len() {
                                LineToken::Kv(string_of_chars(&k), string_of_chars(&v))
                            } else {
                                LineToken::Bad
                            }
                        },
                    }
                } else {
                    LineToken::Bad
                }
            } else {
                LineToken::Bad
            }
        },
    }
}

/// Parse a manifest out of its on-disk text.
pub fn load(text: &String) -> (r: Result<Config, ParseError>)
    ensures
        match r {
            Ok(c) => load_spec(text@) == Some(c@) && c.wf(),
            Err(e) => load_spec(text@) is None,
        },
{
    let chars = chars_of_string(text);
    let lines = split_lines_exec(&chars);
    let ghost lsv = lines_view(lines@);
    let n = lines.len();
    let mut section = Section::Preamble;
    let mut name: Option<String> = None;
    let mut version: Option<String> = None;
    let mut description: Option<String> = None;
    let mut main_script: Option<String> = None;
    let mut packages: Vec<(String, String)> = Vec::new();
    let mut scripts: Vec<(String, String)> = Vec::new();
    proof {
        assert(lsv.subrange(0, 0) =~= Seq::<Seq<char>>::empty());
        assert(table_view(packages@) =~= Seq::<(Seq<char>, Seq<char>)>::empty());
        assert(table_view(scripts@) =~= Seq::<(Seq<char>, Seq<char>)>::empty());
    }
    let mut i: usize = 0;
    while i < n
        invariant
            0 <= i <= n,
            n == lines@.len(),
            lsv == lines_view(lines@),
            lsv.len() == n,
            split_lines(text@) == lsv,
            parse_lines_from(init_state(), lsv.subrange(0, i as int)) == (ParseState {
                failed: false,
                section: section,
                name: opt_view(name),
                version: opt_view(version),
                description: opt_view(description),
                main_script: opt_view(main_script),
                packages: table_view(packages@),
                scripts: table_view(scripts@),
            }),
            unique_keys(table_view(packages@)),
            unique_keys(table_view(scripts@)),
        decreases n - i,
    {
        let ghost pre_st = parse_lines_from(init_state(), lsv.subrange(0, i as int));
        proof {
            lemma_parse_lines_snoc(init_state(), lsv.subrange(0, i as int), lsv[i as int]);
            assert(lsv.subrange(0, i as int).push(lsv[i as int]) =~= lsv.subrange(
                0,
                i + 1 as int,
            ));
        }
        let t = parse_line_exec(&lines[i]);
        match t {
            LineToken::Blank => {},
            LineToken::HeaderProject => {
                section = Section::InProject;
            },
            LineToken::HeaderPackages => {
                section = Section::InPackages;
            },
            LineToken::HeaderScripts => {
                section = Section::InScripts;
            },
            LineToken::Bad => {
                proof {
                    lemma_failed_stays(
                        parse_step(pre_st, lsv[i as int]),
                        lsv.subrange(i + 1 as int, n as int),
                    );
                    lemma_parse_lines_app(
                        init_state(),
                        lsv.subrange(0, i + 1 as int),
                        lsv.subrange(i + 1 as int, n as int),
                    );
                    assert(lsv.subrange(0, i + 1 as int) + lsv.subrange(i + 1 as int, n as int)
                        =~= lsv);
                }
                return Err(ParseError);
            },
            LineToken::Kv(k, v) => {
                let mut ok = false;
                match section {
                    Section::Preamble => {},
                    Section::InProject => {
                        if str_eq(&k, "name") {
                            if name.is_none() {
                                name = Some(v);
                                ok = true;
                            }
                        } else if str_eq(&k, "version") {
                            if version.is_none() {
                                version = Some(v);
                                ok = true;
                            }
                        } else if str_eq(&k, "description") {
                            if description.is_none() {
                                description = Some(v);
                                ok = true;
                            }
                        } else if str_eq(&k, "main_script") || str_eq(&k, "main") {
                            if main_script.is_none() {
                                main_script = Some(v);
                                ok = true;
                            }
                        }
                    },
                    Section::InPackages => {
                        if !table_contains_key(&packages, &k) {
                            let ghost pk = table_view(packages@);
                            let ghost kk = k@;
                            let ghost vv = v@;
                            packages.push((k, v));
                            proof {
                                assert(table_view(packages@) =~= pk.push((kk, vv)));
                            }
                            ok = true;
                        }
                    },
                    Section::InScripts => {
                        if !table_contains_key(&scripts, &k) {
                            let ghost sk = table_view(scripts@);
                            let ghost kk = k@;
                            let ghost vv = v@;
                            scripts.push((k, v));
                            proof {
                                assert(table_view(scripts@) =~= sk.push((kk, vv)));
                            }
                            ok = true;
                        }
                    },
                }
                if !ok {
                    proof {
                        lemma_failed_stays(
                            parse_step(pre_st, lsv[i as int]),
                            lsv.subrange(i + 1 as int, n as int),
                        );
                        lemma_parse_lines_app(
                            init_state(),
                            lsv.subrange(0, i + 1 as int),
                            lsv.subrange(i + 1 as int, n as int),
                        );
                        assert(lsv.subrange(0, i + 1 as int) + lsv.subrange(i + 1 as int, n as int)
                            =~= lsv);
                    }
                    return Err(ParseError);
                }
            },
        }
        proof {
            assert(parse_lines_from(init_state(), lsv.subrange(0, i + 1 as int)) =~= (ParseState {
                failed: false,
                section: section,
                name: opt_view(name),
                version: opt_view(version),
                description: opt_view(description),
                main_script: opt_view(main_script),
                packages: table_view(packages@),
                scripts: table_view(scripts@),
            }));
        }
        i += 1;
    }
    proof {
        assert(lsv.subrange(0, n as int) =~= lsv);
    }
    match (name, version, description, main_script) {
        (Some(nm), Some(vr), Some(ds), Some(ms)) => {
            let c = Config::new(Project::new(nm, vr, ds, ms), packages, scripts);
            proof {
                assert(load_spec(text@) == Some(c@));
            }
            Ok(c)
        },
        _ => Err(ParseError),
    }
}

/// Escaped text holds no newline.
pub proof fn lemma_escape_no_newline(s: Seq<char>)
    ensures
        forall|i: int| 0 <= i < escape(s).len() ==> #[trigger] escape(s)[i] != '\n',
    decreases s.len(),
{
    if s.len() > 0 {
        lemma_escape_no_newline(s.drop_first());
        let ec = escape_char(s[0]);
        assert forall|i: int| 0 <= i < escape(s).len() implies #[trigger] escape(s)[i]
            != '\n' by {
            if i < ec.len() {
                assert(escape(s)[i] == ec[i]);
            } else {
                assert(escape(s)[i] == escape(s.drop_first())[i - ec.len()]);
            }
        }
    }
}

/// A key-value line holds no newline.
pub proof fn lemma_kv_line_no_newline(k: Seq<char>, v: Seq<char>)
    ensures
        forall|i: int| 0 <= i < kv_line(k, v).len() ==> #[trigger] kv_line(k, v)[i] != '\n',
{
    lemma_escape_no_newline(k);
    lemma_escape_no_newline(v);
    let l = kv_line(k, v);
    let ek = escape(k);
    let ev = escape(v);
    assert(l =~= seq!['"'] + ek + seq!['"', ' ', '=', ' ', '"'] + ev + seq!['"']);
    assert forall|i: int| 0 <= i < l.len() implies #[trigger] l[i] != '\n' by {
        if 1 <= i < 1 + ek.len() {
            assert(l[i] == ek[i - 1]);
        } else if 6 + ek.len() <= i < 6 + ek.len() + ev.len() {
            assert(l[i] == ev[i - 6 - ek.len()]);
        } else {
            assert(l[i] == '"' || l[i] == ' ' || l[i] == '=');
        }
    }
}

/// Reading a quoted string back out of its written form yields the
/// original string, ending just after the closing quote.
pub proof fn lemma_parse_quoted_escape(l: Seq<char>, i: int, s: Seq<char>)
    requires
        0 <= i,
        i + escape(s).len() + 1 <= l.len(),
        l.subrange(i, i + escape(s).len()) == escape(s),
        l[i + escape(s).len()] == '"',
    ensures
        parse_quoted(l, i) == Some((s, i + escape(s).len() + 1)),
    decreases s.len(),
{
    let e = escape(s);
    if s.len() == 0 {
        assert(e =~= Seq::<char>::empty());
        assert(l[i] == '"');
        assert(parse_quoted(l, i) == Some((Seq::<char>::empty(), i + 1)));
        assert(s =~= Seq::<char>::empty());
    } else {
        let c = s[0];
        let s2 = s.drop_first();
        let ec = escape_char(c);
        let e2 = escape(s2);
        assert(e == ec + e2);
        assert(e.len() == ec.len() + e2.len());
        assert forall|m: int| 0 <= m < e.len() implies l[i + m] == e[m] by {
            assert(l.subrange(i, i + e.len())[m] == l[i + m]);
        }
        assert(l.subrange(i + ec.len(), i + e.len()) =~= e2) by {
            assert forall|m: int| 0 <= m < e2.len() implies l.subrange(
                i + ec.len(),
                i + e.len(),
            )[m] == e2[m] by {
                assert(l.subrange(i + ec.len(), i + e.len())[m] == l[i + ec.len() + m]);
                assert(e[ec.len() + m] == e2[m]);
            }
        }
        assert(l[i + ec.len() + e2.len()] == '"');
        if c == '\\' || c == '"' || c == '\n' || c == '\r' {
            let d = ec[1];
            assert(ec.len() == 2);
            assert(ec[0] == '\\');
            assert(e[0] == ec[0]);
            assert(e[1] == ec[1]);
            assert(l[i + 0] == e[0]);
            assert(l[i + 1] == e[1]);
            assert(l[i] == '\\');
            assert(l[i + 1] == d);
            assert(unescape_char(d) == c);
            lemma_parse_quoted_escape(l, i + 2, s2);
            assert(parse_quoted(l, i) == Some((seq![c] + s2, i + e.len() + 1)));
            assert(seq![c] + s2 =~= s);
        } else {
            assert(ec =~= seq![c]);
            assert(e[0] == ec[0]);
            assert(l[i + 0] == e[0]);
            assert(l[i] == c);
            assert(c != '"' && c != '\\');
            lemma_parse_quoted_escape(l, i + 1, s2);
            assert(parse_quoted(l, i) == Some((seq![c] + s2, i + e.len() + 1)));
            assert(seq![c] + s2 =~= s);
        }
    }
}

/// A written key-value line reads back as exactly that pair.
pub proof fn lemma_parse_kv_line(k: Seq<char>, v: Seq<char>)
    ensures
        parse_line(kv_line(k, v)) == LineKind::Kv(k, v),
{
    let l = kv_line(k, v);
    let ek = escape(k);
    let ev = escape(v);
    assert(l =~= seq!['"'] + ek + seq!['"', ' ', '=', ' ', '"'] + ev + seq!['"']);
    assert(l.len() == ek.len() + ev.len() + 7);
    assert(l[0] == '"');
    reveal_strlit("[project]");
    reveal_strlit("[packages]");
    reveal_strlit("[scripts]");
    assert("[project]"@[0] == '[');
    assert("[packages]"@[0] == '[');
    assert("[scripts]"@[0] == '[');
    assert(l != "[project]"@);
    assert(l != "[packages]"@);
    assert(l != "[scripts]"@);
    assert(l.subrange(1, 1 + ek.len() as int) =~= ek) by {
        assert forall|m: int| 0 <= m < ek.len() implies l.subrange(1, 1 + ek.len() as int)[m]
            == ek[m] by {
            assert(l.subrange(1, 1 + ek.len() as int)[m] == l[1 + m]);
        }
    }
    assert(l[1 + ek.len() as int] == '"');
    lemma_parse_quoted_escape(l, 1, k);
    assert(parse_quoted(l, 1) == Some((k, 2 + ek.len() as int)));
    let j: int = 2 + ek.len() as int;
    assert(j + 3 < l.len());
    assert(l[j] == ' ');
    assert(l[j + 1] == '=');
    assert(l[j + 2] == ' ');
    assert(l[j + 3] == '"');
    assert(l.subrange(j + 4, j + 4 + ev.len() as int) =~= ev) by {
        assert forall|m: int| 0 <= m < ev.len() implies l.subrange(j + 4, j + 4 + ev.len() as int)[m]
            == ev[m] by {
            assert(l.subrange(j + 4, j + 4 + ev.len() as int)[m] == l[j + 4 + m]);
        }
    }
    assert(l[j + 4 + ev.len()] == '"');
    lemma_parse_quoted_escape(l, j + 4, v);
    assert(parse_quoted(l, j + 4) == Some((v, j + 4 + ev.len() + 1)));
    assert(j + 4 + ev.len() + 1 == l.len());
}

/// The three header lines read back as their headers.
pub proof fn lemma_parse_headers()
    ensures
        parse_line("[project]"@) == LineKind::HeaderProject,
        parse_line("[packages]"@) == LineKind::HeaderPackages,
        parse_line("[scripts]"@) == LineKind::HeaderScripts,
{
    reveal_strlit("[project]");
    reveal_strlit("[packages]");
    reveal_strlit("[scripts]");
    assert("[project]"@.len() == 9);
    assert("[packages]"@.len() == 10);
    assert("[scripts]"@.len() == 9);
    assert("[project]"@[1] == 'p');
    assert("[scripts]"@[1] == 's');
    assert("[packages]"@ != "[project]"@);
    assert("[scripts]"@ != "[project]"@);
    assert("[scripts]"@ != "[packages]"@);
}

/// A newline-free line followed by a newline opens the line list.
pub proof fn lemma_split_lines_prepend(line: Seq<char>, rest: Seq<char>)
    requires
        forall|i: int| 0 <= i < line.len() ==> #[trigger] line[i] != '\n',
    ensures
        split_lines(line + seq!['\n'] + rest) == seq![line] + split_lines(rest),
{
    let s = line + seq!['\n'] + rest;
    assert(s.len() > 0);
    assert(s[line.len() as int] == '\n');
    assert forall|j: int| 0 <= j < line.len() implies s[j] != '\n' by {
        assert(s[j] == line[j]);
    }
    crate::text::lemma_find_from_skip(s, 0, line.len() as int, '\n');
    assert(crate::text::find_from(s, line.len() as int, '\n') == line.len());
    let j = crate::text::find_from(s, 0, '\n');
    assert(j == line.len());
    assert(s.subrange(0, j) =~= line);
    assert(s.subrange(j + 1, s.len() as int) =~= rest);
}

/// The written lines of a table, in order.
pub open spec fn kv_lines_of(t: TableView) -> Seq<Seq<char>> {
    t.map_values(|p: (Seq<char>, Seq<char>)| kv_line(p.0, p.1))
}

/// Splitting a rendered table followed by more text yields the
/// table's key-value lines followed by the lines of the rest.
pub proof fn lemma_split_render_table(t: TableView, suffix: Seq<char>)
    ensures
        split_lines(render_table(t) + suffix) == kv_lines_of(t) + split_lines(suffix),
    decreases t.len(),
{
    if t.len() == 0 {
        assert(render_table(t) + suffix =~= suffix);
        assert(kv_lines_of(t) + split_lines(suffix) =~= split_lines(suffix));
    } else {
        let line = kv_line(t[0].0, t[0].1);
        let rest_text = render_table(t.drop_first()) + suffix;
        assert(render_table(t) + suffix =~= line + seq!['\n'] + rest_text);
        lemma_kv_line_no_newline(t[0].0, t[0].1);
        lemma_split_lines_prepend(line, rest_text);
        lemma_split_render_table(t.drop_first(), suffix);
        assert(kv_lines_of(t) =~= seq![line] + kv_lines_of(t.drop_first()));
        assert(split_lines(render_table(t) + suffix) == seq![line] + (kv_lines_of(t.drop_first())
            + split_lines(suffix)));
        assert(seq![line] + (kv_lines_of(t.drop_first()) + split_lines(suffix)) =~= kv_lines_of(t)
            + split_lines(suffix));
    }
}

/// Feeding one line is one step.
proof fn lemma_parse_lines_one(st: ParseState, l: Seq<char>)
    ensures
        parse_lines_from(st, seq![l]) == parse_step(st, l),
{
    assert(seq![l].drop_first() =~= Seq::<Seq<char>>::empty());
    assert(parse_lines_from(st, seq![l]) == parse_lines_from(
        parse_step(st, l),
        seq![l].drop_first(),
    ));
    assert(parse_lines_from(parse_step(st, l), Seq::<Seq<char>>::empty()) == parse_step(st, l));
}

/// Feeding a table's written lines appends its pairs to the packages
/// table, provided the combined keys stay unique.
proof fn lemma_fold_packages(st: ParseState, t: TableView)
    requires
        !st.failed,
        st.section == Section::InPackages,
        unique_keys(st.packages + t),
    ensures
        parse_lines_from(st, kv_lines_of(t)) == (ParseState { packages: st.packages + t, ..st }),
    decreases t.len(),
{
    if t.len() == 0 {
        assert(kv_lines_of(t) =~= Seq::<Seq<char>>::empty());
        assert(st.packages + t =~= st.packages);
        assert(parse_lines_from(st, kv_lines_of(t)) == st);
        assert((ParseState { packages: st.packages + t, ..st }) =~= st);
    } else {
        let p0 = t[0];
        let line = kv_line(p0.0, p0.1);
        lemma_parse_kv_line(p0.0, p0.1);
        assert(!has_key(st.packages, p0.0)) by {
            let comb = st.packages + t;
            assert(comb[st.packages.len() as int] == p0);
            if has_key(st.packages, p0.0) {
                let m = crate::manifest::key_at(st.packages, p0.0);
                assert(comb[m] == st.packages[m]);
                assert(comb[m].0 == comb[st.packages.len() as int].0);
            }
        }
        let st1 = ParseState { packages: st.packages.push(p0), ..st };
        assert(kv_lines_of(t)[0] == line);
        assert(parse_step(st, line) == st1);
        assert(kv_lines_of(t).drop_first() =~= kv_lines_of(t.drop_first()));
        assert(st1.packages + t.drop_first() =~= st.packages + t);
        lemma_fold_packages(st1, t.drop_first());
        assert(parse_lines_from(st, kv_lines_of(t)) == parse_lines_from(
            st1,
            kv_lines_of(t).drop_first(),
        ));
        assert((ParseState { packages: st1.packages + t.drop_first(), ..st1 }) =~= (ParseState {
            packages: st.packages + t,
            ..st
        }));
    }
}

/// Feeding a table's written lines appends its pairs to the scripts
/// table, provided the combined keys stay unique.
proof fn lemma_fold_scripts(st: ParseState, t: TableView)
    requires
        !st.failed,
        st.section == Section::InScripts,
        unique_keys(st.scripts + t),
    ensures
        parse_lines_from(st, kv_lines_of(t)) == (ParseState { scripts: st.scripts + t, ..st }),
    decreases t.len(),
{
    if t.len() == 0 {
        assert(kv_lines_of(t) =~= Seq::<Seq<char>>::empty());
        assert(st.scripts + t =~= st.scripts);
        assert(parse_lines_from(st, kv_lines_of(t)) == st);
        assert((ParseState { scripts: st.scripts + t, ..st }) =~= st);
    } else {
        let p0 = t[0];
        let line = kv_line(p0.0, p0.1);
        lemma_parse_kv_line(p0.0, p0.1);
        assert(!has_key(st.scripts, p0.0)) by {
            let comb = st.scripts + t;
            assert(comb[st.scripts.len() as int] == p0);
            if has_key(st.scripts, p0.0) {
                let m = crate::manifest::key_at(st.scripts, p0.0);
                assert(comb[m] == st.scripts[m]);
                assert(comb[m].0 == comb[st.scripts.len() as int].0);
            }
        }
        let st1 = ParseState { scripts: st.scripts.push(p0), ..st };
        assert(kv_lines_of(t)[0] == line);
        assert(parse_step(st, line) == st1);
        assert(kv_lines_of(t).drop_first() =~= kv_lines_of(t.drop_first()));
        assert(st1.scripts + t.drop_first() =~= st.scripts + t);
        lemma_fold_scripts(st1, t.drop_first());
        assert(parse_lines_from(st, kv_lines_of(t)) == parse_lines_from(
            st1,
            kv_lines_of(t).drop_first(),
        ));
        assert((ParseState { scripts: st1.scripts + t.drop_first(), ..st1 }) =~= (ParseState {
            scripts: st.scripts + t,
            ..st
        }));
    }
}

/// LAW — round trip: a manifest with unique keys in each table
/// (including empty tables) that `save` writes is read back by `load`
/// exactly: `load_spec(save_spec(c)) == Some(c)`.
#[verifier::rlimit(100)]
pub proof fn lemma_save_load_roundtrip(c: ConfigView)
    requires
        unique_keys(c.packages),
        unique_keys(c.scripts),
    ensures
        load_spec(save_spec(c)) == Some(c),
{
    reveal_strlit("[project]");
    reveal_strlit("[packages]");
    reveal_strlit("[scripts]");
    reveal_strlit("name");
    reveal_strlit("version");
    reveal_strlit("description");
    reveal_strlit("main_script");
    reveal_strlit("main");
    let hp = "[project]"@;
    let hk = "[packages]"@;
    let hs = "[scripts]"@;
    let l1 = kv_line("name"@, c.project.name);
    let l2 = kv_line("version"@, c.project.version);
    let l3 = kv_line("description"@, c.project.description);
    let l4 = kv_line("main_script"@, c.project.main_script);
    let text = save_spec(c);
    lemma_kv_line_no_newline("name"@, c.project.name);
    lemma_kv_line_no_newline("version"@, c.project.version);
    lemma_kv_line_no_newline("description"@, c.project.description);
    lemma_kv_line_no_newline("main_script"@, c.project.main_script);
    assert(forall|i: int| 0 <= i < hp.len() ==> #[trigger] hp[i] != '\n');
    assert(forall|i: int| 0 <= i < hk.len() ==> #[trigger] hk[i] != '\n');
    assert(forall|i: int| 0 <= i < hs.len() ==> #[trigger] hs[i] != '\n');

    // The text, line by line.
    let t8: Seq<char> = render_table(c.scripts);
    let t7: Seq<char> = hs + seq!['\n'] + t8;
    let t6: Seq<char> = render_table(c.packages) + t7;
    let t5: Seq<char> = hk + seq!['\n'] + t6;
    let t4: Seq<char> = l4 + seq!['\n'] + t5;
    let t3: Seq<char> = l3 + seq!['\n'] + t4;
    let t2: Seq<char> = l2 + seq!['\n'] + t3;
    let t1: Seq<char> = l1 + seq!['\n'] + t2;
    assert(text =~= hp + seq!['\n'] + t1);
    let r8 = kv_lines_of(c.scripts);
    let r7 = seq![hs] + r8;
    let r6 = kv_lines_of(c.packages) + r7;
    let r5 = seq![hk] + r6;
    let r4 = seq![l4] + r5;
    let r3 = seq![l3] + r4;
    let r2 = seq![l2] + r3;
    let r1 = seq![l1] + r2;
    let lines = seq![hp] + r1;
    assert(split_lines(t8) == r8) by {
        assert(t8 + Seq::<char>::empty() =~= t8);
        lemma_split_render_table(c.scripts, Seq::<char>::empty());
        assert(split_lines(Seq::<char>::empty()) == Seq::<Seq<char>>::empty());
        assert(r8 + Seq::<Seq<char>>::empty() =~= r8);
    }
    assert(split_lines(t7) == r7) by {
        lemma_split_lines_prepend(hs, t8);
    }
    assert(split_lines(t6) == r6) by {
        lemma_split_render_table(c.packages, t7);
    }
    assert(split_lines(t5) == r5) by {
        lemma_split_lines_prepend(hk, t6);
    }
    assert(split_lines(t4) == r4) by {
        lemma_split_lines_prepend(l4, t5);
    }
    assert(split_lines(t3) == r3) by {
        lemma_split_lines_prepend(l3, t4);
    }
    assert(split_lines(t2) == r2) by {
        lemma_split_lines_prepend(l2, t3);
    }
    assert(split_lines(t1) == r1) by {
        lemma_split_lines_prepend(l1, t2);
    }
    assert(split_lines(text) == lines) by {
        lemma_split_lines_prepend(hp, t1);
    }

    // The fold, line by line.
    lemma_parse_headers();
    lemma_parse_kv_line("name"@, c.project.name);
    lemma_parse_kv_line("version"@, c.project.version);
    lemma_parse_kv_line("description"@, c.project.description);
    lemma_parse_kv_line("main_script"@, c.project.main_script);
    assert("name"@.len() == 4 && "version"@.len() == 7 && "description"@.len() == 11
        && "main_script"@.len() == 11 && "main"@.len() == 4);
    assert("main_script"@[0] == 'm' && "description"@[0] == 'd');
    assert("version"@ != "name"@);
    assert("description"@ != "name"@ && "description"@ != "version"@);
    assert("main_script"@ != "name"@ && "main_script"@ != "version"@ && "main_script"@
        != "description"@);
    let st0 = init_state();
    let st1 = ParseState { section: Section::InProject, ..st0 };
    let st2 = ParseState { name: Some(c.project.name), ..st1 };
    let st3 = ParseState { version: Some(c.project.version), ..st2 };
    let st4 = ParseState { description: Some(c.project.description), ..st3 };
    let st5 = ParseState { main_script: Some(c.project.main_script), ..st4 };
    let st6 = ParseState { section: Section::InPackages, ..st5 };
    let st7 = ParseState { packages: c.packages, ..st6 };
    let st8 = ParseState { section: Section::InScripts, ..st7 };
    let st9 = ParseState { scripts: c.scripts, ..st8 };
    assert(parse_step(st0, hp) == st1);
    assert(parse_step(st1, l1) == st2);
    assert(parse_step(st2, l2) == st3);
    assert(parse_step(st3, l3) == st4);
    assert(parse_step(st4, l4) == st5);
    assert(parse_step(st5, hk) == st6);
    assert(parse_step(st7, hs) == st8);
    lemma_parse_lines_app(st0, seq![hp], r1);
    lemma_parse_lines_one(st0, hp);
    lemma_parse_lines_app(st1, seq![l1], r2);
    lemma_parse_lines_one(st1, l1);
    lemma_parse_lines_app(st2, seq![l2], r3);
    lemma_parse_lines_one(st2, l2);
    lemma_parse_lines_app(st3, seq![l3], r4);
    lemma_parse_lines_one(st3, l3);
    lemma_parse_lines_app(st4, seq![l4], r5);
    lemma_parse_lines_one(st4, l4);
    lemma_parse_lines_app(st5, seq![hk], r6);
    lemma_parse_lines_one(st5, hk);
    lemma_parse_lines_app(st6, kv_lines_of(c.packages), r7);
    assert(st6.packages + c.packages =~= c.packages);
    assert(unique_keys(st6.packages + c.packages));
    lemma_fold_packages(st6, c.packages);
    assert(parse_lines_from(st6, kv_lines_of(c.packages)) =~= st7);
    lemma_parse_lines_app(st7, seq![hs], r8);
    lemma_parse_lines_one(st7, hs);
    assert(st8.scripts + c.scripts =~= c.scripts);
    assert(unique_keys(st8.scripts + c.scripts));
    lemma_fold_scripts(st8, c.scripts);
    assert(parse_lines_from(st8, r8) =~= st9);
    assert(parse_lines_from(st0, lines) == st9);

    let got = load_spec(text);
    assert(got is Some);
    assert(got->0 =~= c);
}

} // verus!
