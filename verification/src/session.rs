//! The declarations of a session file.
//!
//! A session file declares modules, one per line: `<kind> <mref> [<feature>]`, where a
//! module reference is `<id>#<name>`. The lines `> <tag> <talker>[:<port>]` that follow a
//! module give its attributes; lines whose first word starts with `/` are comments.
use vstd::prelude::*;

use crate::text::{self, Sep};

verus! {

/// What a module declaration says.
pub struct SModule {
    pub kind: Seq<char>,
    pub mref: Seq<char>,
    pub feature: Seq<char>,
    pub attributs: Seq<(Seq<char>, Seq<char>, Seq<char>)>,
}

/// A module declared in a session file: its kind, its reference (`<id>#<name>`), its
/// feature, and the attributes of its following `>` lines (tag, talker, port).
#[derive(Debug, PartialEq)]
pub struct Module<'a> {
    pub kind: &'a str,
    pub mref: &'a str,
    pub feature: &'a str,
    pub attributs: Vec<(&'a str, &'a str, &'a str)>,
}

pub open spec fn attributs_view<'a>(v: Seq<(&'a str, &'a str, &'a str)>) -> Seq<
    (Seq<char>, Seq<char>, Seq<char>),
> {
    v.map_values(|a: (&'a str, &'a str, &'a str)| (a.0@, a.1@, a.2@))
}

impl<'a> View for Module<'a> {
    type V = SModule;

    open spec fn view(&self) -> SModule {
        SModule {
            kind: self.kind@,
            mref: self.mref@,
            feature: self.feature@,
            attributs: attributs_view(self.attributs@),
        }
    }
}

impl<'a> Module<'a> {
    pub fn new(kind: &'a str, mref: &'a str, feature: &'a str) -> (r: Module<'a>)
        ensures
            r.kind == kind,
            r.mref == mref,
            r.feature == feature,
            r.attributs@.len() == 0,
            r@ == new_module(kind@, mref@, feature@),
    {
        let r = Self { kind, mref, feature, attributs: Vec::new() };
        assert(attributs_view(r.attributs@) =~= Seq::empty());
        r
    }
}

pub open spec fn new_module(kind: Seq<char>, mref: Seq<char>, feature: Seq<char>) -> SModule {
    SModule { kind, mref, feature, attributs: Seq::empty() }
}

/// The modules of each kind, by reference.
pub struct SDecs {
    pub talkers: Map<Seq<char>, SModule>,
    pub tracks: Map<Seq<char>, SModule>,
    pub mixers: Map<Seq<char>, SModule>,
    pub outputs: Map<Seq<char>, SModule>,
}

pub open spec fn kind_track() -> Seq<char> {
    seq!['t', 'r', 'a', 'c', 'k']
}

pub open spec fn kind_mixer() -> Seq<char> {
    seq!['m', 'i', 'x', 'e', 'r']
}

pub open spec fn kind_output() -> Seq<char> {
    seq!['o', 'u', 't', 'p', 'u', 't']
}

/// Files module `m` by its kind: tracks, mixers and outputs by their kind word, talkers
/// for every other kind; a module without kind is dropped. A module with the reference
/// of a module filed before replaces it.
pub open spec fn tidy(m: SModule, d: SDecs) -> SDecs {
    if m.kind.len() == 0 {
        d
    } else if m.kind == kind_track() {
        SDecs { tracks: d.tracks.insert(m.mref, m), ..d }
    } else if m.kind == kind_mixer() {
        SDecs { mixers: d.mixers.insert(m.mref, m), ..d }
    } else if m.kind == kind_output() {
        SDecs { outputs: d.outputs.insert(m.mref, m), ..d }
    } else {
        SDecs { talkers: d.talkers.insert(m.mref, m), ..d }
    }
}

/// The words of a line: its text without surrounding white space, split at each space
/// or tabulation.
pub open spec fn words(line: Seq<char>) -> Seq<Seq<char>> {
    text::pieces(text::trim(line), 0, Sep::Blank)
}

/// An attribute line before any module: its tag and its talker.
pub struct AttributeBeforeModule {
    pub tag: Seq<char>,
    pub talker: Seq<char>,
}

/// What one line makes of the declarations read so far and of the module being read.
pub open spec fn step(d: SDecs, m: SModule, line: Seq<char>) -> Result<
    (SDecs, SModule),
    AttributeBeforeModule,
> {
    let ws = words(line);
    if ws[0].len() > 0 && ws[0][0] == '/' {
        Ok((d, m))
    } else if ws.len() >= 3 && ws[0] == seq!['>'] {
        if m.kind.len() == 0 {
            Err(AttributeBeforeModule { tag: ws[1], talker: ws[2] })
        } else {
            let tl = text::pieces(ws[2], 0, Sep::Colon);
            let port = if tl.len() > 1 {
                tl[1]
            } else {
                Seq::empty()
            };
            Ok((d, SModule { attributs: m.attributs.push((ws[1], tl[0], port)), ..m }))
        }
    } else if ws.len() >= 3 {
        Ok((tidy(m, d), new_module(ws[0], ws[1], ws[2])))
    } else if ws.len() == 2 {
        Ok((tidy(m, d), new_module(ws[0], ws[1], Seq::empty())))
    } else {
        Ok((d, m))
    }
}

pub open spec fn no_decs() -> SDecs {
    SDecs {
        talkers: Map::empty(),
        tracks: Map::empty(),
        mixers: Map::empty(),
        outputs: Map::empty(),
    }
}

/// The declarations and the module being read after the first `k` lines.
pub open spec fn read_lines(lines: Seq<Seq<char>>, k: nat) -> Result<
    (SDecs, SModule),
    AttributeBeforeModule,
>
    decreases k,
{
    if k == 0 {
        Ok((no_decs(), new_module(Seq::empty(), Seq::empty(), Seq::empty())))
    } else {
        match read_lines(lines, (k - 1) as nat) {
            Ok((d, m)) => step(d, m, lines[k - 1]),
            Err(e) => Err(e),
        }
    }
}

/// The declarations of a session file.
pub open spec fn declarations(lines: Seq<Seq<char>>) -> Result<SDecs, AttributeBeforeModule> {
    match read_lines(lines, lines.len()) {
        Ok((d, m)) => Ok(tidy(m, d)),
        Err(e) => Err(e),
    }
}

/// The map of modules by reference that a list of modules with distinct references gives.
pub open spec fn modules_map(s: Seq<SModule>) -> Map<Seq<char>, SModule>
    decreases s.len(),
{
    if s.len() == 0 {
        Map::empty()
    } else {
        modules_map(s.drop_last()).insert(s.last().mref, s.last())
    }
}

pub open spec fn distinct_mrefs(s: Seq<SModule>) -> bool {
    forall|i: int, j: int| 0 <= i < s.len() && 0 <= j < s.len() && i != j ==> s[i].mref != s[j].mref
}

proof fn lemma_modules_map_update(s: Seq<SModule>, i: int, m: SModule)
    requires
        distinct_mrefs(s),
        0 <= i < s.len(),
        s[i].mref == m.mref,
    ensures
        modules_map(s.update(i, m)) == modules_map(s).insert(m.mref, m),
    decreases s.len(),
{
    let u = s.update(i, m);
    if i == s.len() - 1 {
        assert(u.drop_last() =~= s.drop_last());
        assert(modules_map(u) =~= modules_map(s).insert(m.mref, m));
    } else {
        assert(u.drop_last() =~= s.drop_last().update(i, m));
        lemma_modules_map_update(s.drop_last(), i, m);
        assert(s.last().mref != m.mref);
        assert(modules_map(u) =~= modules_map(s).insert(m.mref, m));
    }
}

proof fn lemma_distinct_update(s: Seq<SModule>, i: int, m: SModule)
    requires
        distinct_mrefs(s),
        0 <= i < s.len(),
        s[i].mref == m.mref,
    ensures
        distinct_mrefs(s.update(i, m)),
{
    let u = s.update(i, m);
    assert forall|a: int, b: int| 0 <= a < u.len() && 0 <= b < u.len() && a != b implies u[a].mref != u[b].mref by {
        assert(s[a].mref != s[b].mref);
    }
}

/// Modules of one kind, each with its own reference.
pub struct Modules<'a> {
    pub modules: Vec<Module<'a>>,
}

pub open spec fn modules_view<'a>(v: Seq<Module<'a>>) -> Seq<SModule> {
    v.map_values(|m: Module<'a>| m@)
}

impl<'a> View for Modules<'a> {
    type V = Map<Seq<char>, SModule>;

    open spec fn view(&self) -> Map<Seq<char>, SModule> {
        modules_map(modules_view(self.modules@))
    }
}

impl<'a> Modules<'a> {
    pub open spec fn wf(&self) -> bool {
        distinct_mrefs(modules_view(self.modules@))
    }

    pub fn new() -> (r: Modules<'a>)
        ensures
            r.wf(),
            r@ == Map::<Seq<char>, SModule>::empty(),
    {
        let r = Modules { modules: Vec::new() };
        assert(modules_view(r.modules@) =~= Seq::empty());
        r
    }

    /// Files `m` under its reference, in place of a module with the same reference.
    pub fn insert(&mut self, m: Module<'a>)
        requires
            old(self).wf(),
        ensures
            final(self).wf(),
            final(self)@ == old(self)@.insert(m.mref@, m@),
    {
        let ghost old_view = modules_view(self.modules@);
        let ghost mv = m@;
        let mut i: usize = 0;
        while i < self.modules.len()
            invariant
                i <= self.modules@.len(),
                old_view == modules_view(self.modules@),
                modules_map(old_view) == old(self)@,
                distinct_mrefs(old_view),
                forall|j: int| 0 <= j < i ==> #[trigger] old_view[j].mref != mv.mref,
                mv == m@,
            decreases self.modules@.len() - i,
        {
            if text::str_eq(self.modules[i].mref, m.mref) {
                assert(old_view[i as int] == self.modules@[i as int]@);
                self.modules.set(i, m);
                proof {
                    assert(modules_view(self.modules@) =~= old_view.update(i as int, mv));
                    lemma_modules_map_update(old_view, i as int, mv);
                    lemma_distinct_update(old_view, i as int, mv);
                }
                return;
            }
            assert(old_view[i as int] == self.modules@[i as int]@);
            i += 1;
        }
        self.modules.push(m);
        proof {
            let nv = modules_view(self.modules@);
            assert(nv =~= old_view.push(mv));
            assert(nv.drop_last() =~= old_view);
            assert(distinct_mrefs(nv)) by {
                assert forall|a: int, b: int| 0 <= a < nv.len() && 0 <= b < nv.len() && a != b implies nv[a].mref != nv[b].mref by {
                    if a < old_view.len() && b < old_view.len() {
                        assert(nv[a] == old_view[a] && nv[b] == old_view[b]);
                    } else if a < old_view.len() {
                        assert(nv[a] == old_view[a]);
                    } else {
                        assert(nv[b] == old_view[b]);
                    }
                }
            }
        }
    }
}

/// The modules of each kind that a session file declares.
pub struct Decs<'a> {
    pub talkers: Modules<'a>,
    pub tracks: Modules<'a>,
    pub mixers: Modules<'a>,
    pub outputs: Modules<'a>,
}

impl<'a> View for Decs<'a> {
    type V = SDecs;

    open spec fn view(&self) -> SDecs {
        SDecs {
            talkers: self.talkers@,
            tracks: self.tracks@,
            mixers: self.mixers@,
            outputs: self.outputs@,
        }
    }
}

impl<'a> Decs<'a> {
    pub open spec fn wf(&self) -> bool {
        self.talkers.wf() && self.tracks.wf() && self.mixers.wf() && self.outputs.wf()
    }
}

/// An attribute line came before any module.
#[derive(Debug, PartialEq)]
pub enum DecsError {
    AttributeBeforeModule { tag: String, talker: String },
}

impl DecsError {
    /// The text of the error.
    pub fn message(&self) -> (r: String)
        ensures
            r@ == match self {
                DecsError::AttributeBeforeModule { tag, talker } => "Found module attribut "@
                    + tag@ + " "@ + talker@ + " before module!"@,
            },
    {
        match self {
            DecsError::AttributeBeforeModule { tag, talker } => {
                let mut r = "Found module attribut ".to_owned();
                r.append(tag.as_str());
                r.append(" ");
                r.append(talker.as_str());
                r.append(" before module!");
                r
            },
        }
    }
}

/// Files a module by its kind (see [`tidy`]).
pub fn tidy_decs<'a>(module: Module<'a>, decs: &mut Decs<'a>)
    requires
        old(decs).wf(),
    ensures
        final(decs).wf(),
        final(decs)@ == tidy(module@, old(decs)@),
{
    proof {
        reveal_strlit("track");
        reveal_strlit("mixer");
        reveal_strlit("output");
        assert("track"@ =~= kind_track());
        assert("mixer"@ =~= kind_mixer());
        assert("output"@ =~= kind_output());
    }
    if module.kind.is_empty() {
    } else if text::str_eq(module.kind, "track") {
        decs.tracks.insert(module);
    } else if text::str_eq(module.kind, "mixer") {
        decs.mixers.insert(module);
    } else if text::str_eq(module.kind, "output") {
        decs.outputs.insert(module);
    } else {
        decs.talkers.insert(module);
    }
}

pub open spec fn lines_view(lines: Seq<String>) -> Seq<Seq<char>> {
    lines.map_values(|l: String| l@)
}

proof fn lemma_read_lines_error(lines: Seq<Seq<char>>, k: nat, n: nat)
    requires
        k <= n,
        read_lines(lines, k) is Err,
    ensures
        read_lines(lines, n) == read_lines(lines, k),
    decreases n - k,
{
    if k < n {
        lemma_read_lines_error(lines, k, (n - 1) as nat);
    }
}

/// The words of a line that a declaration reads: the first, and the second and third
/// when there are so many.
struct LineWords<'a> {
    first: &'a str,
    second: Option<&'a str>,
    third: Option<&'a str>,
}

fn line_words<'a>(line: &'a str) -> (r: LineWords<'a>)
    ensures
        r.first@ == words(line@)[0],
        r.second is Some <==> words(line@).len() >= 2,
        r.second matches Some(w) ==> w@ == words(line@)[1],
        r.third is Some <==> words(line@).len() >= 3,
        r.third matches Some(w) ==> w@ == words(line@)[2],
{
    let chars = text::chars_of(line);
    let a = text::trim_start_index(&chars, 0);
    let b = text::trim_end_index(&chars, chars.len());
    let t: &'a str = if a < b {
        line.substring_char(a, b)
    } else {
        line.substring_char(0, 0)
    };
    assert(t@ == text::trim(line@));
    let tc = text::chars_of(t);
    let ghost ts = tc@;
    let j0 = text::sep_index(&tc, 0, Sep::Blank);
    proof {
        text::lemma_pieces(ts, 0, Sep::Blank);
    }
    let first = t.substring_char(0, j0);
    if j0 >= tc.len() {
        return LineWords { first, second: None, third: None };
    }
    let j1 = text::sep_index(&tc, j0 + 1, Sep::Blank);
    proof {
        text::lemma_pieces(ts, j0 + 1, Sep::Blank);
    }
    let second = t.substring_char(j0 + 1, j1);
    if j1 >= tc.len() {
        return LineWords { first, second: Some(second), third: None };
    }
    let j2 = text::sep_index(&tc, j1 + 1, Sep::Blank);
    proof {
        text::lemma_pieces(ts, j1 + 1, Sep::Blank);
    }
    let third = t.substring_char(j1 + 1, j2);
    LineWords { first, second: Some(second), third: Some(third) }
}

/// The talker and the port of an attribute: `<talker>[:<port>]`.
fn talker_port<'a>(tlk: &'a str) -> (r: (&'a str, &'a str))
    ensures
        r.0@ == text::pieces(tlk@, 0, Sep::Colon)[0],
        r.1@ == if text::pieces(tlk@, 0, Sep::Colon).len() > 1 {
            text::pieces(tlk@, 0, Sep::Colon)[1]
        } else {
            Seq::empty()
        },
{
    let tc = text::chars_of(tlk);
    let c0 = text::sep_index(&tc, 0, Sep::Colon);
    proof {
        text::lemma_pieces(tlk@, 0, Sep::Colon);
    }
    let tkr = tlk.substring_char(0, c0);
    if c0 >= tc.len() {
        return (tkr, tlk.substring_char(0, 0));
    }
    let c1 = text::sep_index(&tc, c0 + 1, Sep::Colon);
    proof {
        text::lemma_pieces(tlk@, c0 + 1, Sep::Colon);
    }
    (tkr, tlk.substring_char(c0 + 1, c1))
}

/// Reads the module declarations of the lines of a session file.
pub fn make_decs<'a>(lines: &'a Vec<String>) -> (r: Result<Decs<'a>, DecsError>)
    ensures
        match declarations(lines_view(lines@)) {
            Ok(d) => r matches Ok(x) && x.wf() && x@ == d,
            Err(e) => r matches Err(DecsError::AttributeBeforeModule { tag, talker }) && tag@
                == e.tag && talker@ == e.talker,
        },
{
    let ghost ls = lines_view(lines@);
    let mut decs = Decs {
        talkers: Modules::new(),
        tracks: Modules::new(),
        mixers: Modules::new(),
        outputs: Modules::new(),
    };
    proof {
        reveal_strlit("");
        assert(""@ =~= Seq::<char>::empty());
    }
    let mut module = Module::new("", "", "");
    assert(decs@ == no_decs());
    let mut k: usize = 0;
    while k < lines.len()
        invariant
            k <= lines@.len(),
            ls == lines_view(lines@),
            decs.wf(),
            read_lines(ls, k as nat) == Ok::<(SDecs, SModule), AttributeBeforeModule>((decs@, module@)),
        decreases lines@.len() - k,
    {
        let line: &'a String = &lines[k];
        let lw = line_words(line.as_str());
        let ghost ws = words(ls[k as int]);
        assert(ls[k as int] == line@);
        proof {
            reveal_strlit(">");
            assert(">"@ =~= seq!['>']);
        }
        if !lw.first.is_empty() && lw.first.get_char(0) == '/' {
        } else if lw.third.is_some() && text::str_eq(lw.first, ">") {
            let tag = lw.second.unwrap();
            let tlk = lw.third.unwrap();
            if module.kind.is_empty() {
                proof {
                    lemma_read_lines_error(ls, (k + 1) as nat, ls.len());
                }
                return Err(
                    DecsError::AttributeBeforeModule { tag: tag.to_owned(), talker: tlk.to_owned() },
                );
            }
            let (tkr, sp) = talker_port(tlk);
            let ghost old_attr = module.attributs@;
            module.attributs.push((tag, tkr, sp));
            assert(attributs_view(module.attributs@) =~= attributs_view(old_attr).push(
                (tag@, tkr@, sp@),
            ));
        } else if lw.third.is_some() {
            let m = Module::new(lw.first, lw.second.unwrap(), lw.third.unwrap());
            tidy_decs(module, &mut decs);
            module = m;
        } else if lw.second.is_some() {
            proof {
                reveal_strlit("");
                assert(""@ =~= Seq::<char>::empty());
            }
            let m = Module::new(lw.first, lw.second.unwrap(), "");
            tidy_decs(module, &mut decs);
            module = m;
        }
        k += 1;
    }
    tidy_decs(module, &mut decs);
    Ok(decs)
}

/// The number that a text writes in decimal: an optional `+` then one or more digits,
/// when it fits in a `u32`.
pub open spec fn decimal_u32(s: Seq<char>) -> Option<u32> {
    let d = if s.len() > 0 && s[0] == '+' {
        s.drop_first()
    } else {
        s
    };
    if d.len() > 0 && (forall|i: int| 0 <= i < d.len() ==> crate::grammar::is_digit(#[trigger] d[i]))
        && crate::grammar::digits_value(d) <= u32::MAX {
        Some(crate::grammar::digits_value(d) as u32)
    } else {
        None
    }
}

#[verifier::external_type_specification]
#[verifier::external_body]
pub struct ExParseIntError(core::num::ParseIntError);

/// `u32::from_str`: it reads an optional `+` followed by decimal digits, and fails on any
/// other text and on a number above `u32::MAX`. Which kind of error it gives is not stated.
#[verifier::external_body]
fn parse_u32(s: &str) -> (r: Result<u32, core::num::ParseIntError>)
    ensures
        match decimal_u32(s@) {
            Some(v) => r == Ok::<u32, core::num::ParseIntError>(v),
            None => r is Err,
        },
{
    s.parse::<u32>()
}

/// The decimal writing of a number (what `Display` writes for a `u32`).
pub open spec fn decimal_text(n: nat) -> Seq<char>
    decreases n,
{
    if n < 10 {
        seq![(n + 48) as char]
    } else {
        decimal_text(n / 10).push(((n % 10) + 48) as char)
    }
}

/// The digit that writes `d`.
fn digit_text(d: u64) -> (r: &'static str)
    requires
        d < 10,
    ensures
        r@ == seq![(d + 48) as char],
{
    match d {
        0 => {
            proof {
                reveal_strlit("0");
            }
            "0"
        },
        1 => {
            proof {
                reveal_strlit("1");
            }
            "1"
        },
        2 => {
            proof {
                reveal_strlit("2");
            }
            "2"
        },
        3 => {
            proof {
                reveal_strlit("3");
            }
            "3"
        },
        4 => {
            proof {
                reveal_strlit("4");
            }
            "4"
        },
        5 => {
            proof {
                reveal_strlit("5");
            }
            "5"
        },
        6 => {
            proof {
                reveal_strlit("6");
            }
            "6"
        },
        7 => {
            proof {
                reveal_strlit("7");
            }
            "7"
        },
        8 => {
            proof {
                reveal_strlit("8");
            }
            "8"
        },
        _ => {
            proof {
                reveal_strlit("9");
            }
            "9"
        },
    }
}

/// The decimal writing of a number (what `Display` writes for an unsigned integer).
pub(crate) fn decimal_string(n: u64) -> (r: String)
    ensures
        r@ == decimal_text(n as nat),
    decreases n,
{
    if n < 10 {
        digit_text(n).to_owned()
    } else {
        let mut r = decimal_string(n / 10);
        r.append(digit_text(n % 10));
        r
    }
}

/// A reference whose identifier part is not a `u32`.
#[derive(Debug)]
pub enum MrefError {
    Id { mref: String, error: core::num::ParseIntError },
}

/// The text that describes an error of `u32::from_str`.
pub uninterp spec fn parse_error_text(e: core::num::ParseIntError) -> Seq<char>;

/// `ParseIntError`'s `Display`: the text that describes the error (the same text as its
/// `description`). It depends on the error alone and is named [`parse_error_text`];
/// nothing more is stated of it.
#[verifier::external_body]
fn int_error_text(e: &core::num::ParseIntError) -> (r: String)
    ensures
        r@ == parse_error_text(*e),
{
    e.to_string()
}

impl MrefError {
    /// The text of the error.
    pub fn message(&self) -> (r: String)
        ensures
            r@ == match self {
                MrefError::Id { mref, error } => "Failed to get id from mref "@ + mref@ + " : "@
                    + parse_error_text(*error) + "!"@,
            },
    {
        match self {
            MrefError::Id { mref, error } => {
                let mut r = "Failed to get id from mref ".to_owned();
                r.append(mref.as_str());
                r.append(" : ");
                let t = int_error_text(error);
                r.append(t.as_str());
                r.append("!");
                r
            },
        }
    }
}

/// `name` with each space and tabulation replaced by an underscore.
pub open spec fn underscored(name: Seq<char>) -> Seq<char> {
    name.map_values(|c: char| if c == ' ' || c == '\t' { '_' } else { c })
}

/// The reference of a module: its identifier in decimal, `#`, and its name with blanks
/// replaced by underscores.
pub open spec fn mref_text(id: nat, name: Seq<char>) -> Seq<char> {
    decimal_text(id) + seq!['#'] + underscored(name)
}

/// The decimal writing of a number is a non-empty run of digits whose value is the number.
pub proof fn lemma_decimal_text(n: nat)
    ensures
        decimal_text(n).len() > 0,
        forall|i: int| 0 <= i < decimal_text(n).len() ==> crate::grammar::is_digit(
            #[trigger] decimal_text(n)[i],
        ),
        crate::grammar::digits_value(decimal_text(n)) == n,
    decreases n,
{
    let t = decimal_text(n);
    if n < 10 {
        assert(t.drop_last() =~= Seq::<char>::empty());
        assert((((n + 48) as char) as u32) == n + 48);
        assert(crate::grammar::digits_value(t) == crate::grammar::digits_value(t.drop_last()) * 10
            + ((t.last() as u32) - 48) as nat);
    } else {
        lemma_decimal_text(n / 10);
        assert(t.drop_last() =~= decimal_text(n / 10));
        assert(((((n % 10) + 48) as char) as u32) == (n % 10) + 48);
        assert(forall|i: int| 0 <= i < t.len() - 1 ==> t[i] == decimal_text(n / 10)[i]);
        assert((n / 10) * 10 + n % 10 == n) by (nonlinear_arith);
        assert(crate::grammar::digits_value(t) == crate::grammar::digits_value(t.drop_last()) * 10
            + ((t.last() as u32) - 48) as nat);
    }
}

/// What a module reference is read back as: the identifier before its `#` is the
/// identifier it was made from, and the name after it is the name with blanks replaced,
/// for every name without a `#`.
pub proof fn lemma_mref_round_trip(id: u32, name: Seq<char>)
    requires
        !name.contains('#'),
    ensures
        text::pieces(mref_text(id as nat, name), 0, Sep::Hash).len() == 2,
        decimal_u32(text::pieces(mref_text(id as nat, name), 0, Sep::Hash)[0]) == Some(id),
        text::pieces(mref_text(id as nat, name), 0, Sep::Hash)[1] == underscored(name),
{
    let d = decimal_text(id as nat);
    let u = underscored(name);
    let r = mref_text(id as nat, name);
    let j = d.len() as int;
    lemma_decimal_text(id as nat);
    assert(r[j] == '#');
    assert(forall|i: int| 0 <= i < j ==> r[i] == d[i]);
    assert(forall|i: int| 0 <= i < u.len() ==> r[j + 1 + i] == u[i]);
    assert forall|i: int| 0 <= i < u.len() implies u[i] != '#' by {
        if u[i] == '#' {
            assert(name[i] == '#');
            assert(name.contains('#'));
        }
    }
    text::lemma_sep_from(r, 0, Sep::Hash);
    let k = text::sep_from(r, 0, Sep::Hash);
    if k < j {
        assert(crate::grammar::is_digit(d[k]));
    }
    if k > j {
        assert(!text::is_sep(r[j], Sep::Hash));
    }
    assert(k == j);
    text::lemma_pieces(r, 0, Sep::Hash);
    text::lemma_sep_from(r, j + 1, Sep::Hash);
    let k2 = text::sep_from(r, j + 1, Sep::Hash);
    if k2 < r.len() {
        assert(r[k2] == u[k2 - j - 1]);
    }
    text::lemma_pieces(r, j + 1, Sep::Hash);
    assert(r.subrange(0, j) =~= d);
    assert(r.subrange(j + 1, r.len() as int) =~= u);
    assert(text::pieces(r, 0, Sep::Hash)[1] == text::pieces(r, j + 1, Sep::Hash)[0]);
}

/// The reference of a module: its identifier, `#`, and its name with blanks replaced by
/// underscores.
pub fn mref(id: u32, name: &str) -> (r: String)
    ensures
        r@ == mref_text(id as nat, name@),
{
    let mut r = decimal_string(id as u64);
    proof {
        reveal_strlit("#");
        reveal_strlit("_");
        assert("#"@ =~= seq!['#']);
        assert("_"@ =~= seq!['_']);
    }
    r.append("#");
    let chars = text::chars_of(name);
    let ghost r0 = r@;
    let mut start: usize = 0;
    let mut i: usize = 0;
    while i < chars.len()
        invariant
            start <= i <= chars@.len(),
            chars@ == name@,
            r@ == r0 + underscored(name@.take(start as int)),
            forall|j: int| start <= j < i ==> !(#[trigger] chars@[j] == ' ' || chars@[j] == '\t'),
        decreases chars@.len() - i,
    {
        if chars[i] == ' ' || chars[i] == '\t' {
            proof {
                reveal_strlit("_");
                assert("_"@ =~= seq!['_']);
            }
            r.append(name.substring_char(start, i));
            r.append("_");
            assert(underscored(name@.take(i + 1)) =~= underscored(name@.take(start as int))
                + name@.subrange(start as int, i as int) + seq!['_']);
            assert(r@ =~= r0 + underscored(name@.take(i + 1)));
            start = i + 1;
        }
        i += 1;
    }
    r.append(name.substring_char(start, chars.len()));
    assert(underscored(name@) =~= underscored(name@.take(start as int)) + name@.subrange(
        start as int,
        name@.len() as int,
    ));
    assert(name@.take(name@.len() as int) =~= name@);
    r
}

/// The name part of a module reference: what follows its `#` when it has exactly one,
/// else the whole reference.
pub fn name_from_mref(mref: &str) -> (r: &str)
    ensures
        r@ == if text::pieces(mref@, 0, Sep::Hash).len() == 2 {
            text::pieces(mref@, 0, Sep::Hash)[1]
        } else {
            mref@
        },
{
    let chars = text::chars_of(mref);
    let j0 = text::sep_index(&chars, 0, Sep::Hash);
    proof {
        text::lemma_pieces(mref@, 0, Sep::Hash);
    }
    if j0 >= chars.len() {
        return mref;
    }
    let j1 = text::sep_index(&chars, j0 + 1, Sep::Hash);
    proof {
        text::lemma_pieces(mref@, j0 + 1, Sep::Hash);
    }
    if j1 >= chars.len() {
        mref.substring_char(j0 + 1, chars.len())
    } else {
        mref
    }
}

/// The identifier part of a module reference: what comes before its first `#`, read as
/// a `u32`.
pub fn id_from_mref(mref: &str) -> (r: Result<u32, MrefError>)
    ensures
        match decimal_u32(text::pieces(mref@, 0, Sep::Hash)[0]) {
            Some(v) => r matches Ok(x) && x == v,
            None => r matches Err(MrefError::Id { mref: m, .. }) && m@ == mref@,
        },
{
    let chars = text::chars_of(mref);
    let j0 = text::sep_index(&chars, 0, Sep::Hash);
    proof {
        text::lemma_pieces(mref@, 0, Sep::Hash);
    }
    match parse_u32(mref.substring_char(0, j0)) {
        Ok(id) => Ok(id),
        Err(e) => Err(MrefError::Id { mref: mref.to_owned(), error: e }),
    }
}

/// Only blanks change in the name part of a reference: each space or tabulation becomes
/// an underscore and every other character is kept, in place.
pub proof fn lemma_underscored(name: Seq<char>)
    ensures
        underscored(name).len() == name.len(),
        forall|i: int|
            0 <= i < name.len() && name[i] != ' ' && name[i] != '\t' ==> #[trigger] underscored(
                name,
            )[i] == name[i],
        forall|i: int|
            0 <= i < name.len() && (name[i] == ' ' || name[i] == '\t') ==> #[trigger] underscored(
                name,
            )[i] == '_',
{
}

/// A name without blanks and without `#` is read back unchanged from its reference.
pub proof fn lemma_mref_keeps_plain_name(id: u32, name: Seq<char>)
    requires
        forall|i: int| 0 <= i < name.len() ==> name[i] != ' ' && name[i] != '\t' && name[i] != '#',
    ensures
        text::pieces(mref_text(id as nat, name), 0, Sep::Hash)[1] == name,
        decimal_u32(text::pieces(mref_text(id as nat, name), 0, Sep::Hash)[0]) == Some(id),
{
    assert(!name.contains('#'));
    lemma_mref_round_trip(id, name);
    lemma_underscored(name);
    assert(underscored(name) =~= name);
}

} // verus!
