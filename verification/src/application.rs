//! Discovered applications: a descriptor file's text is decoded as an
//! INI document, its `Desktop Entry` section is read field by field, and
//! a retained application carries its command, terminal flag, icon and
//! joined usage record.

use vstd::prelude::*;

use crate::db::{find_record, Db, DbEntry, DbEntryV};
use crate::icon::{resolve_icon_spec, Icon, IconV};
use crate::strutil::is_ws;
use vstd::string::StringExecFns;

verus! {

#[verifier::external_type_specification]
#[verifier::external_body]
pub struct ExIni(ini::Ini);

#[verifier::external_type_specification]
#[verifier::external_body]
pub struct ExProperties(ini::Properties);

/// What decoding an INI text yields: nothing, or its sections, each a
/// key-to-first-value map. The decoding depends on the text alone.
pub uninterp spec fn ini_load_model(content: Seq<char>) -> Option<
    Map<Seq<char>, Map<Seq<char>, Seq<char>>>,
>;

/// The sections a decoded INI document holds, by name.
pub uninterp spec fn ini_sections(doc: ini::Ini) -> Map<Seq<char>, Map<Seq<char>, Seq<char>>>;

/// The key-to-first-value map a section holds.
pub uninterp spec fn props_map(p: ini::Properties) -> Map<Seq<char>, Seq<char>>;

/// Relies on `ini::Ini::load_from_str`: decodes INI text, a function of
/// the text alone; a decode error becomes `None`.
#[verifier::external_body]
fn ini_load(content: &str) -> (r: Option<ini::Ini>)
    ensures
        match r {
            Some(doc) => ini_load_model(content@) == Some(ini_sections(doc)),
            None => ini_load_model(content@) is None,
        },
{
    match ini::Ini::load_from_str(content) {
        Ok(doc) => Some(doc),
        Err(_) => None,
    }
}

/// Relies on `ini::Ini::section`: the first section with this name, if
/// any.
#[verifier::external_body]
fn ini_section<'a>(doc: &'a ini::Ini, name: &str) -> (r: Option<&'a ini::Properties>)
    ensures
        match r {
            Some(p) => ini_sections(*doc).contains_key(name@) && props_map(*p) == ini_sections(
                *doc,
            )[name@],
            None => !ini_sections(*doc).contains_key(name@),
        },
{
    doc.section(Some(name))
}

/// Relies on `ini::Properties::get`: the first value stored under this
/// key, if any.
#[verifier::external_body]
fn props_get<'a>(p: &'a ini::Properties, key: &str) -> (r: Option<&'a str>)
    ensures
        match r {
            Some(value) => props_map(*p).contains_key(key@) && value@ == props_map(*p)[key@],
            None => !props_map(*p).contains_key(key@),
        },
{
    p.get(key)
}

/// The mathematical value of a discovered application.
pub struct ApplicationV {
    pub name: Seq<char>,
    pub filename: Seq<char>,
    pub args: Seq<Seq<char>>,
    pub terminal: bool,
    pub comment: Option<Seq<char>>,
    pub icon: IconV,
    pub db_entry: DbEntryV,
}

/// One discovered application, immutable after construction but for its
/// joined usage record.
#[derive(Debug)]
pub struct Application {
    pub name: String,
    pub filename: String,
    pub args: Vec<String>,
    pub terminal: bool,
    pub comment: Option<String>,
    pub icon: Icon,
    pub db_entry: DbEntry,
}

impl View for Application {
    type V = ApplicationV;

    open spec fn view(&self) -> ApplicationV {
        ApplicationV {
            name: self.name@,
            filename: self.filename@,
            args: self.args@.map_values(|a: String| a@),
            terminal: self.terminal,
            comment: match self.comment {
                Some(c) => Some(c@),
                None => None,
            },
            icon: self.icon@,
            db_entry: self.db_entry@,
        }
    }
}

/// The application views of a vector of applications.
pub open spec fn app_views(s: Seq<Application>) -> Seq<ApplicationV> {
    s.map_values(|a: Application| a@)
}

pub fn clone_strings(v: &Vec<String>) -> (r: Vec<String>)
    ensures
        r@ == v@,
{
    let n = v.len();
    let mut out: Vec<String> = Vec::new();
    let mut i: usize = 0;
    while i < n
        invariant
            n == v@.len(),
            i <= n,
            out@ == v@.take(i as int),
        decreases n - i,
    {
        out.push(v[i].clone());
        assert(out@ =~= v@.take(i + 1));
        i += 1;
    }
    assert(v@.take(n as int) =~= v@);
    out
}

impl Clone for Application {
    fn clone(&self) -> (r: Self)
        ensures
            r@ == self@,
    {
        Application {
            name: self.name.clone(),
            filename: self.filename.clone(),
            args: clone_strings(&self.args),
            terminal: self.terminal,
            comment: match &self.comment {
                Some(c) => Some(c.clone()),
                None => None,
            },
            icon: self.icon.clone(),
            db_entry: self.db_entry.clone(),
        }
    }
}

// ---------------------------------------------------------------------
// Field-level decoding.
// ---------------------------------------------------------------------
/// How a semicolon-separated list splits: one segment between each pair
/// of separators, empty segments kept.
pub open spec fn split_sc(s: Seq<char>) -> Seq<Seq<char>>
    decreases s.len(),
{
    if s.len() == 0 {
        seq![Seq::<char>::empty()]
    } else if s[0] == ';' {
        seq![Seq::<char>::empty()] + split_sc(s.skip(1))
    } else {
        let rest = split_sc(s.skip(1));
        seq![seq![s[0]] + rest[0]] + rest.skip(1)
    }
}

pub proof fn lemma_split_sc_len(s: Seq<char>)
    ensures
        split_sc(s).len() >= 1,
    decreases s.len(),
{
    if s.len() == 0 {
    } else if s[0] == ';' {
        lemma_split_sc_len(s.skip(1));
    } else {
        lemma_split_sc_len(s.skip(1));
    }
}

/// The segments already closed, the segment being read, and what the
/// rest of the text splits into, joined back together.
pub open spec fn split_ctx(done: Seq<Seq<char>>, cur: Seq<char>, rest: Seq<Seq<char>>) -> Seq<
    Seq<char>,
> {
    done + seq![cur + rest[0]] + rest.skip(1)
}

/// Splits on semicolons, exactly as the category field is divided.
pub fn split_semicolon(s: &str) -> (r: Vec<String>)
    ensures
        r@.map_values(|t: String| t@) == split_sc(s@),
{
    let n = s.unicode_len();
    let mut out: Vec<String> = Vec::new();
    let mut cur = String::new();
    let mut i: usize = 0;
    proof {
        assert(s@.skip(0) =~= s@);
    }
    while i < n
        invariant
            n == s@.len(),
            i <= n,
            split_sc(s@) == split_ctx(
                out@.map_values(|t: String| t@),
                cur@,
                split_sc(s@.skip(i as int)),
            ),
        decreases n - i,
    {
        let ghost rem = s@.skip(i as int);
        let ghost done = out@.map_values(|t: String| t@);
        proof {
            assert(rem[0] == s@[i as int]);
            assert(rem.skip(1) =~= s@.skip(i + 1));
            lemma_split_sc_len(s@.skip(i + 1));
        }
        let c = s.get_char(i);
        if c == ';' {
            let ghost cur0 = cur@;
            out.push(cur);
            cur = String::new();
            proof {
                let rest = split_sc(s@.skip(i + 1));
                assert(split_sc(rem) == seq![Seq::<char>::empty()] + rest);
                assert(split_sc(rem)[0] =~= Seq::<char>::empty());
                assert(cur0 + split_sc(rem)[0] =~= cur0);
                assert(split_sc(rem).skip(1) =~= rest);
                assert(out@.map_values(|t: String| t@) =~= done.push(cur0));
                assert(split_ctx(done, cur0, split_sc(rem)) =~= split_ctx(
                    done.push(cur0),
                    cur@,
                    rest,
                ));
            }
        } else {
            let ghost cur0 = cur@;
            crate::strutil::push_char(&mut cur, c);
            proof {
                let rest = split_sc(s@.skip(i + 1));
                assert(split_sc(rem) == seq![seq![rem[0]] + rest[0]] + rest.skip(1));
                assert(cur0 + (seq![c] + rest[0]) =~= cur@ + rest[0]);
                assert(split_sc(rem)[0] == seq![rem[0]] + rest[0]);
                assert(split_sc(rem).skip(1) =~= rest.skip(1));
                assert(split_ctx(done, cur0, split_sc(rem)) =~= split_ctx(done, cur@, rest));
            }
        }
        i += 1;
    }
    proof {
        assert(s@.skip(i as int).len() == 0);
        assert(split_sc(s@.skip(i as int)) == seq![Seq::<char>::empty()]);
    }
    let ghost done = out@.map_values(|t: String| t@);
    let ghost cur0 = cur@;
    out.push(cur);
    proof {
        let rest = seq![Seq::<char>::empty()];
        assert(cur0 + rest[0] =~= cur0);
        assert(rest.skip(1) =~= Seq::<Seq<char>>::empty());
        assert(split_ctx(done, cur0, rest) =~= done.push(cur0));
        assert(out@.map_values(|t: String| t@) =~= done.push(cur0));
    }
    out
}

/// How a command line splits into tokens: maximal runs of
/// non-whitespace characters.
pub open spec fn split_ws(s: Seq<char>) -> Seq<Seq<char>>
    decreases s.len(),
{
    if s.len() == 0 {
        Seq::empty()
    } else if is_ws(s[0]) {
        split_ws(s.skip(1))
    } else {
        let rest = split_ws(s.skip(1));
        if s.len() >= 2 && !is_ws(s[1]) {
            seq![seq![s[0]] + rest[0]] + rest.skip(1)
        } else {
            seq![seq![s[0]]] + rest
        }
    }
}

/// A run of non-whitespace followed by whitespace or the end is the
/// first token.
proof fn lemma_split_ws_run(s: Seq<char>, len: int)
    requires
        1 <= len <= s.len(),
        forall|t: int| 0 <= t < len ==> !is_ws(#[trigger] s[t]),
        len == s.len() || is_ws(s[len]),
    ensures
        split_ws(s) == seq![s.take(len)] + split_ws(s.skip(len)),
    decreases len,
{
    if len == 1 {
        if s.len() >= 2 && !is_ws(s[1]) {
            assert(false);
        }
        assert(s.take(1) =~= seq![s[0]]);
        assert(s.skip(1) =~= s.skip(len));
    } else {
        lemma_split_ws_run(s.skip(1), len - 1);
        assert(s.skip(1)[0] == s[1]);
        assert(!is_ws(s[1]));
        let rest = split_ws(s.skip(1));
        assert(rest == seq![s.skip(1).take(len - 1)] + split_ws(s.skip(1).skip(len - 1)));
        assert(rest[0] == s.skip(1).take(len - 1));
        assert(seq![s[0]] + s.skip(1).take(len - 1) =~= s.take(len));
        assert(s.skip(1).skip(len - 1) =~= s.skip(len));
        assert(rest.skip(1) =~= split_ws(s.skip(len)));
    }
}

fn is_ws_exec(c: char) -> (r: bool)
    ensures
        r == is_ws(c),
{
    c == ' ' || c == '\t' || c == '\n' || c == '\u{B}' || c == '\u{C}' || c == '\r'
        || c == '\u{85}' || c == '\u{A0}' || c == '\u{1680}' || ('\u{2000}' <= c && c
        <= '\u{200A}') || c == '\u{2028}' || c == '\u{2029}' || c == '\u{202F}' || c == '\u{205F}'
        || c == '\u{3000}'
}

/// Splits a command line on whitespace.
pub fn split_whitespace_exec(s: &str) -> (r: Vec<String>)
    ensures
        r@.map_values(|t: String| t@) == split_ws(s@),
{
    let n = s.unicode_len();
    let mut out: Vec<String> = Vec::new();
    let mut i: usize = 0;
    proof {
        assert(s@.skip(0) =~= s@);
    }
    while i < n
        invariant
            n == s@.len(),
            i <= n,
            split_ws(s@) == out@.map_values(|t: String| t@) + split_ws(s@.skip(i as int)),
        decreases n - i,
    {
        let ghost rem = s@.skip(i as int);
        proof {
            assert(rem[0] == s@[i as int]);
            assert(rem.skip(1) =~= s@.skip(i + 1));
        }
        if is_ws_exec(s.get_char(i)) {
            i += 1;
        } else {
            let start = i;
            let mut j: usize = i + 1;
            while j < n && !is_ws_exec_at(s, j)
                invariant
                    n == s@.len(),
                    start < j <= n,
                    forall|t: int| start <= t < j ==> !is_ws(#[trigger] s@[t]),
                decreases n - j,
            {
                j += 1;
            }
            let token = s.substring_char(start, j);
            let ghost done = out@.map_values(|t: String| t@);
            out.push(String::from_str(token));
            proof {
                let remx = s@.skip(start as int);
                assert forall|t: int| 0 <= t < j - start implies !is_ws(#[trigger] remx[t]) by {
                    assert(remx[t] == s@[start + t]);
                }
                if j < n {
                    assert(remx[j - start] == s@[j as int]);
                }
                lemma_split_ws_run(remx, j - start);
                assert(remx.take(j - start) =~= s@.subrange(start as int, j as int));
                assert(remx.skip(j - start) =~= s@.skip(j as int));
                assert(out@.map_values(|t: String| t@) =~= done.push(token@));
                assert(done + (seq![token@] + split_ws(s@.skip(j as int))) =~= done.push(token@)
                    + split_ws(s@.skip(j as int)));
            }
            i = j;
        }
    }
    proof {
        assert(s@.skip(i as int).len() == 0);
        assert(out@.map_values(|t: String| t@) + split_ws(s@.skip(i as int)) =~= out@.map_values(
            |t: String| t@,
        ));
    }
    out
}

fn is_ws_exec_at(s: &str, j: usize) -> (r: bool)
    requires
        j < s@.len(),
    ensures
        r == is_ws(s@[j as int]),
{
    is_ws_exec(s.get_char(j))
}

/// A placeholder token: one that begins with the substitution marker.
pub open spec fn is_placeholder(t: Seq<char>) -> bool {
    t.len() > 0 && t[0] == '%'
}

/// The command tokens that survive: placeholder tokens are dropped.
pub open spec fn exec_tokens(s: Seq<char>) -> Seq<Seq<char>> {
    split_ws(s).filter(|t: Seq<char>| !is_placeholder(t))
}

/// Splits a command line and drops placeholder tokens.
pub fn tokenize_exec_line(s: &str) -> (r: Vec<String>)
    ensures
        r@.map_values(|t: String| t@) == exec_tokens(s@),
{
    let toks = split_whitespace_exec(s);
    let ghost all = toks@.map_values(|t: String| t@);
    let n = toks.len();
    let mut out: Vec<String> = Vec::new();
    let mut i: usize = 0;
    proof {
        assert(all.take(0) =~= Seq::<Seq<char>>::empty());
        assert(Seq::<Seq<char>>::empty().filter(|t: Seq<char>| !is_placeholder(t))
            =~= Seq::<Seq<char>>::empty());
    }
    while i < n
        invariant
            all == toks@.map_values(|t: String| t@),
            n == toks@.len(),
            i <= n,
            out@.map_values(|t: String| t@) == all.take(i as int).filter(
                |t: Seq<char>| !is_placeholder(t),
            ),
        decreases n - i,
    {
        let ghost done = out@.map_values(|t: String| t@);
        let keep = if toks[i].as_str().unicode_len() == 0 {
            true
        } else {
            toks[i].as_str().get_char(0) != '%'
        };
        assert(keep == !is_placeholder(all[i as int]));
        if keep {
            out.push(toks[i].clone());
            assert(out@.map_values(|t: String| t@) =~= done.push(all[i as int]));
        }
        proof {
            let f = |t: Seq<char>| !is_placeholder(t);
            assert(all.take(i + 1) =~= all.take(i as int) + seq![all[i as int]]);
            vstd::prelude::Seq::filter_distributes_over_add(
                all.take(i as int),
                seq![all[i as int]],
                f,
            );
            reveal_with_fuel(Seq::filter, 2);
            assert(seq![all[i as int]].drop_last() =~= Seq::<Seq<char>>::empty());
            assert(seq![all[i as int]].filter(f) == if f(all[i as int]) {
                seq![all[i as int]]
            } else {
                Seq::<Seq<char>>::empty()
            });
            if keep {
                assert(done + seq![all[i as int]] =~= done.push(all[i as int]));
            } else {
                assert(done + Seq::<Seq<char>>::empty() =~= done);
            }
        }
        i += 1;
    }
    assert(all.take(n as int) =~= all);
    out
}

// ---------------------------------------------------------------------
// From fields to a typed application.
// ---------------------------------------------------------------------
/// What the terminal field means: one of the four boolean literals, or
/// nothing — any other value, like an absent field, discards the entry.
pub open spec fn terminal_of(lit: Option<Seq<char>>) -> Option<bool> {
    match lit {
        Some(t) => if t == "true"@ || t == "True"@ {
            Some(true)
        } else if t == "false"@ || t == "False"@ {
            Some(false)
        } else {
            None
        },
        None => None,
    }
}

/// The view of an optional field.
pub open spec fn opt_str_view(o: Option<&str>) -> Option<Seq<char>> {
    match o {
        Some(s) => Some(s@),
        None => None,
    }
}

/// The one fallible step from a section's fields to a typed
/// application: the terminal flag must be a boolean literal, and at
/// least one command token must survive placeholder stripping.
pub open spec fn app_from_fields(
    name: Seq<char>,
    exec: Seq<char>,
    terminal: Option<Seq<char>>,
    categories: Option<Seq<char>>,
    comment: Option<Seq<char>>,
    db: Seq<DbEntryV>,
) -> Option<ApplicationV> {
    match terminal_of(terminal) {
        None => None,
        Some(tb) => {
            let toks = exec_tokens(exec);
            if toks.len() == 0 {
                None
            } else {
                let cats = match categories {
                    Some(c) => split_sc(c),
                    None => Seq::empty(),
                };
                Some(
                    ApplicationV {
                        name,
                        filename: toks[0],
                        args: toks.skip(1),
                        terminal: tb,
                        comment,
                        icon: resolve_icon_spec(name, cats),
                        db_entry: match find_record(db, name) {
                            Some(e) => e,
                            None => DbEntryV { name, launch_count: 0, blacklisted: false },
                        },
                    },
                )
            }
        },
    }
}

fn tail_strings(v: &Vec<String>) -> (r: Vec<String>)
    requires
        v@.len() >= 1,
    ensures
        r@.map_values(|t: String| t@) == v@.map_values(|t: String| t@).skip(1),
{
    let n = v.len();
    let mut out: Vec<String> = Vec::new();
    let mut i: usize = 1;
    proof {
        assert(out@ =~= v@.subrange(1, 1));
    }
    while i < n
        invariant
            n == v@.len(),
            1 <= i <= n,
            out@ == v@.subrange(1, i as int),
        decreases n - i,
    {
        out.push(v[i].clone());
        assert(out@ =~= v@.subrange(1, i + 1));
        i += 1;
    }
    proof {
        assert(out@ == v@.subrange(1, n as int));
        let lhs = out@.map_values(|t: String| t@);
        let rhs = v@.map_values(|t: String| t@).skip(1);
        assert(lhs.len() == rhs.len());
        assert forall|t: int| 0 <= t < lhs.len() implies lhs[t] == rhs[t] by {
            assert(out@[t] == v@[t + 1]);
            assert(rhs[t] == v@.map_values(|t2: String| t2@)[t + 1]);
        }
        assert(lhs =~= rhs);
    }
    out
}

impl Application {
    /// Builds an application from the consumed fields of a descriptor
    /// section, joining the usage record stored under its name.
    pub fn from_fields(
        name: &str,
        exec: &str,
        terminal: Option<&str>,
        categories: Option<&str>,
        comment: Option<&str>,
        db: &Db,
    ) -> (r: Option<Application>)
        ensures
            match r {
                Some(a) => app_from_fields(
                    name@,
                    exec@,
                    opt_str_view(terminal),
                    opt_str_view(categories),
                    opt_str_view(comment),
                    db@,
                ) == Some(a@),
                None => app_from_fields(
                    name@,
                    exec@,
                    opt_str_view(terminal),
                    opt_str_view(categories),
                    opt_str_view(comment),
                    db@,
                ) is None,
            },
    {
        let tb: bool = match terminal {
            Some(t) => {
                if crate::strutil::str_eq(t, "true") || crate::strutil::str_eq(t, "True") {
                    true
                } else if crate::strutil::str_eq(t, "false") || crate::strutil::str_eq(
                    t,
                    "False",
                ) {
                    false
                } else {
                    return None;
                }
            },
            None => {
                return None;
            },
        };
        let toks = tokenize_exec_line(exec);
        if toks.len() == 0 {
            return None;
        }
        let cats: Vec<String> = match categories {
            Some(c) => split_semicolon(c),
            None => Vec::new(),
        };
        proof {
            if categories is None {
                assert(Seq::<String>::empty().map_values(|c: String| c@) =~= Seq::<
                    Seq<char>,
                >::empty());
            }
        }
        let icon = crate::icon::resolve_icon(name, &cats);
        let filename = toks[0].clone();
        let args = tail_strings(&toks);
        let owned_name = String::from_str(name);
        let db_entry = db.entry_for(&owned_name);
        let comment_owned: Option<String> = match comment {
            Some(c) => Some(String::from_str(c)),
            None => None,
        };
        let a = Application {
            name: owned_name,
            filename,
            args,
            terminal: tb,
            comment: comment_owned,
            icon,
            db_entry,
        };
        proof {
            assert(a@.args =~= exec_tokens(exec@).skip(1));
        }
        Some(a)
    }
}

// ---------------------------------------------------------------------
// From descriptor text to a typed application.
// ---------------------------------------------------------------------
/// What a whole descriptor text yields: nothing unless it decodes as an
/// INI document with a `Desktop Entry` section holding at least a name
/// and a command, and its fields convert.
pub open spec fn app_from_content(content: Seq<char>, db: Seq<DbEntryV>) -> Option<ApplicationV> {
    match ini_load_model(content) {
        None => None,
        Some(secs) => if !secs.contains_key("Desktop Entry"@) {
            None
        } else {
            let m = secs["Desktop Entry"@];
            if !m.contains_key("Name"@) || !m.contains_key("Exec"@) {
                None
            } else {
                app_from_fields(
                    m["Name"@],
                    m["Exec"@],
                    if m.contains_key("Terminal"@) {
                        Some(m["Terminal"@])
                    } else {
                        None
                    },
                    if m.contains_key("Categories"@) {
                        Some(m["Categories"@])
                    } else {
                        None
                    },
                    if m.contains_key("Comment"@) {
                        Some(m["Comment"@])
                    } else {
                        None
                    },
                    db,
                )
            }
        },
    }
}

impl Application {
    /// Builds an application from a descriptor file's text; anything
    /// malformed yields nothing, never an error.
    pub fn from_content(content: &str, db: &Db) -> (r: Option<Application>)
        ensures
            match r {
                Some(a) => app_from_content(content@, db@) == Some(a@),
                None => app_from_content(content@, db@) is None,
            },
    {
        let doc = match ini_load(content) {
            Some(d) => d,
            None => {
                return None;
            },
        };
        let section = match ini_section(&doc, "Desktop Entry") {
            Some(s) => s,
            None => {
                return None;
            },
        };
        let name = match props_get(section, "Name") {
            Some(v) => v,
            None => {
                return None;
            },
        };
        let exec = match props_get(section, "Exec") {
            Some(v) => v,
            None => {
                return None;
            },
        };
        let terminal = props_get(section, "Terminal");
        let categories = props_get(section, "Categories");
        let comment = props_get(section, "Comment");
        Self::from_fields(name, exec, terminal, categories, comment, db)
    }
}

/// What discovery retains from a run of descriptor texts: one
/// application per text that converts, in scan order, duplicates kept.
pub open spec fn catalog_spec(contents: Seq<Seq<char>>, db: Seq<DbEntryV>) -> Seq<ApplicationV>
    decreases contents.len(),
{
    if contents.len() == 0 {
        Seq::empty()
    } else {
        (match app_from_content(contents[0], db) {
            Some(a) => seq![a],
            None => Seq::empty(),
        }) + catalog_spec(contents.skip(1), db)
    }
}

impl Application {
    /// Builds the catalog from the texts of all discovered descriptor
    /// files, in scan order; texts that do not convert are skipped.
    pub fn build_catalog(contents: &Vec<String>, db: &Db) -> (r: Vec<Application>)
        ensures
            app_views(r@) == catalog_spec(contents@.map_values(|c: String| c@), db@),
    {
        let ghost all = contents@.map_values(|c: String| c@);
        let n = contents.len();
        let mut out: Vec<Application> = Vec::new();
        let mut i: usize = 0;
        proof {
            assert(all.skip(0) =~= all);
            assert(app_views(out@) + catalog_spec(all, db@) =~= catalog_spec(all, db@));
        }
        while i < n
            invariant
                all == contents@.map_values(|c: String| c@),
                n == contents@.len(),
                i <= n,
                catalog_spec(all, db@) == app_views(out@) + catalog_spec(
                    all.skip(i as int),
                    db@,
                ),
            decreases n - i,
        {
            let ghost rem = all.skip(i as int);
            proof {
                assert(rem[0] == all[i as int]);
                assert(all[i as int] == contents@[i as int]@);
                assert(rem.skip(1) =~= all.skip(i + 1));
            }
            let ghost done = app_views(out@);
            match Application::from_content(contents[i].as_str(), db) {
                Some(a) => {
                    out.push(a);
                    proof {
                        assert(app_views(out@) =~= done.push(a@));
                        assert(done + (seq![a@] + catalog_spec(all.skip(i + 1), db@))
                            =~= done.push(a@) + catalog_spec(all.skip(i + 1), db@));
                    }
                },
                None => {
                    proof {
                        assert(done + (Seq::<ApplicationV>::empty() + catalog_spec(
                            all.skip(i + 1),
                            db@,
                        )) =~= done + catalog_spec(all.skip(i + 1), db@));
                    }
                },
            }
            i += 1;
        }
        proof {
            assert(all.skip(i as int).len() == 0);
            assert(app_views(out@) + Seq::<ApplicationV>::empty() =~= app_views(out@));
        }
        out
    }
}

// ---------------------------------------------------------------------
// Placeholder stripping holds of every retained application.
// ---------------------------------------------------------------------
/// No surviving command token begins with the placeholder marker.
pub proof fn lemma_no_placeholder_tokens(exec: Seq<char>)
    ensures
        forall|i: int|
            0 <= i < exec_tokens(exec).len() ==> !is_placeholder(#[trigger] exec_tokens(exec)[i]),
{
    broadcast use vstd::seq_lib::group_filter_ensures;

}

/// What the terminal field decides: a built application carries the
/// boolean its literal stands for, and without a recognised literal
/// nothing is built at all.
pub proof fn lemma_terminal_literal(
    name: Seq<char>,
    exec: Seq<char>,
    terminal: Option<Seq<char>>,
    categories: Option<Seq<char>>,
    comment: Option<Seq<char>>,
    db: Seq<DbEntryV>,
)
    ensures
        terminal_of(terminal) is None ==> app_from_fields(
            name,
            exec,
            terminal,
            categories,
            comment,
            db,
        ) is None,
        match app_from_fields(name, exec, terminal, categories, comment, db) {
            Some(a) => terminal_of(terminal) == Some(a.terminal),
            None => true,
        },
{
}

/// The four recognised terminal literals and what each stands for; an
/// absent field is never recognised.
pub proof fn lemma_terminal_literal_values()
    ensures
        terminal_of(Some("true"@)) == Some(true),
        terminal_of(Some("True"@)) == Some(true),
        terminal_of(Some("false"@)) == Some(false),
        terminal_of(Some("False"@)) == Some(false),
        terminal_of(None) is None,
{
    reveal_strlit("true");
    reveal_strlit("True");
    reveal_strlit("false");
    reveal_strlit("False");
    assert("true"@.len() == 4);
    assert("True"@.len() == 4);
    assert("false"@.len() == 5);
    assert("False"@.len() == 5);
    assert("false"@[0] == 'f');
    assert("False"@[0] == 'F');
}

/// How many of a run of descriptor texts convert to an application.
pub open spec fn convertible_count(contents: Seq<Seq<char>>, db: Seq<DbEntryV>) -> nat
    decreases contents.len(),
{
    if contents.len() == 0 {
        0
    } else {
        (if app_from_content(contents[0], db) is Some {
            1nat
        } else {
            0nat
        }) + convertible_count(contents.skip(1), db)
    }
}

/// Every descriptor that converts keeps a place of its own in the
/// catalog: two descriptors with the same name both survive, nothing
/// is merged or dropped.
pub proof fn lemma_catalog_no_dedup(contents: Seq<Seq<char>>, db: Seq<DbEntryV>)
    ensures
        catalog_spec(contents, db).len() == convertible_count(contents, db),
    decreases contents.len(),
{
    if contents.len() == 0 {
    } else {
        lemma_catalog_no_dedup(contents.skip(1), db);
    }
}

/// Of every application built from fields, neither the executable nor
/// any argument begins with the placeholder marker, wherever the marker
/// stood on the command line.
pub proof fn lemma_command_free_of_placeholders(
    name: Seq<char>,
    exec: Seq<char>,
    terminal: Option<Seq<char>>,
    categories: Option<Seq<char>>,
    comment: Option<Seq<char>>,
    db: Seq<DbEntryV>,
    a: ApplicationV,
)
    requires
        app_from_fields(name, exec, terminal, categories, comment, db) == Some(a),
    ensures
        !is_placeholder(a.filename),
        forall|i: int| 0 <= i < a.args.len() ==> !is_placeholder(#[trigger] a.args[i]),
{
    lemma_no_placeholder_tokens(exec);
    let toks = exec_tokens(exec);
    assert(a.filename == toks[0]);
    assert forall|i: int| 0 <= i < a.args.len() implies !is_placeholder(
        #[trigger] a.args[i],
    ) by {
        assert(a.args[i] == toks[i + 1]);
    }
}

} // verus!
