//! Writing the declarations of a session file, and reading them back.
//!
//! Each module is written as an empty line, its declaration `<kind> <mref> [<feature>]`,
//! then one line `> <tag> <talker>[:<port>]` per attribute.
use vstd::prelude::*;

use crate::session::{AttributeBeforeModule, SDecs, SModule};
use crate::text::{self, Sep};

verus! {

/// An attribute of a module as a session file writes it.
pub struct AttributeBackup {
    pub tag: String,
    pub talker: String,
    pub port: String,
}

impl View for AttributeBackup {
    type V = (Seq<char>, Seq<char>, Seq<char>);

    open spec fn view(&self) -> (Seq<char>, Seq<char>, Seq<char>) {
        (self.tag@, self.talker@, self.port@)
    }
}

/// What a module backup says.
pub struct SModuleBackup {
    pub kind: Seq<char>,
    pub mref: Seq<char>,
    pub feature: Option<Seq<char>>,
    pub attributes: Seq<(Seq<char>, Seq<char>, Seq<char>)>,
}

/// A module as a session file writes it: its kind, its reference, its feature when it
/// has one, and its attributes.
pub struct ModuleBackup {
    pub kind: String,
    pub mref: String,
    pub feature: Option<String>,
    pub attributes: Vec<AttributeBackup>,
}

pub open spec fn attributes_view(v: Seq<AttributeBackup>) -> Seq<(Seq<char>, Seq<char>, Seq<char>)> {
    v.map_values(|a: AttributeBackup| a@)
}

pub open spec fn feature_view(f: Option<String>) -> Option<Seq<char>> {
    match f {
        Some(s) => Some(s@),
        None => None,
    }
}

impl View for ModuleBackup {
    type V = SModuleBackup;

    open spec fn view(&self) -> SModuleBackup {
        SModuleBackup {
            kind: self.kind@,
            mref: self.mref@,
            feature: feature_view(self.feature),
            attributes: attributes_view(self.attributes@),
        }
    }
}

pub open spec fn modules_view(v: Seq<ModuleBackup>) -> Seq<SModuleBackup> {
    v.map_values(|m: ModuleBackup| m@)
}

/// The line of an attribute: `> <tag> <talker>`, then `:<port>` when it has a port.
pub open spec fn attribute_text(a: (Seq<char>, Seq<char>, Seq<char>)) -> Seq<char> {
    seq!['>', ' '] + a.0 + seq![' '] + a.1 + if a.2.len() > 0 {
        seq![':'] + a.2
    } else {
        Seq::empty()
    }
}

/// The line of a module declaration: `<kind> <mref>`, then ` <feature>` when it has one.
pub open spec fn declaration_text(kind: Seq<char>, mref: Seq<char>, feature: Option<Seq<char>>) -> Seq<
    char,
> {
    kind + seq![' '] + mref + match feature {
        Some(f) => seq![' '] + f,
        None => Seq::empty(),
    }
}

pub open spec fn attribute_lines(attributes: Seq<(Seq<char>, Seq<char>, Seq<char>)>) -> Seq<
    Seq<char>,
> {
    attributes.map_values(|a: (Seq<char>, Seq<char>, Seq<char>)| attribute_text(a))
}

/// The lines of a module: an empty line, its declaration, its attributes.
pub open spec fn module_lines(m: SModuleBackup) -> Seq<Seq<char>> {
    seq![Seq::empty(), declaration_text(m.kind, m.mref, m.feature)] + attribute_lines(m.attributes)
}

/// The lines of a session file that declares `modules`, in order.
pub open spec fn session_file_lines(modules: Seq<SModuleBackup>) -> Seq<Seq<char>>
    decreases modules.len(),
{
    if modules.len() == 0 {
        Seq::empty()
    } else {
        session_file_lines(modules.drop_last()) + module_lines(modules.last())
    }
}

/// The module that reading the lines of a module backup declares.
pub open spec fn read_module(m: SModuleBackup) -> SModule {
    SModule {
        kind: m.kind,
        mref: m.mref,
        feature: match m.feature {
            Some(f) => f,
            None => Seq::empty(),
        },
        attributs: m.attributes,
    }
}

/// The declarations that filing `modules` in order gives.
pub open spec fn filed(modules: Seq<SModuleBackup>) -> SDecs
    decreases modules.len(),
{
    if modules.len() == 0 {
        crate::session::no_decs()
    } else {
        crate::session::tidy(read_module(modules.last()), filed(modules.drop_last()))
    }
}

/// A non-empty text without white space.
pub open spec fn is_word(t: Seq<char>) -> bool {
    t.len() > 0 && forall|i: int| 0 <= i < t.len() ==> !text::is_whitespace(#[trigger] t[i])
}

/// An attribute that is read back as written: words for tag and talker, no colon in the
/// talker, and a port that is empty or a word without colon.
pub open spec fn writable_attribute(a: (Seq<char>, Seq<char>, Seq<char>)) -> bool {
    &&& is_word(a.0)
    &&& is_word(a.1)
    &&& text::no_sep(a.1, Sep::Colon)
    &&& a.2.len() == 0 || (is_word(a.2) && text::no_sep(a.2, Sep::Colon))
}

/// A module that is read back as written: a word for its kind that neither starts with
/// `/` nor is `>`, a word for its reference, a feature that is empty or a word, and
/// attributes that are read back as written.
pub open spec fn writable_module(m: SModuleBackup) -> bool {
    &&& is_word(m.kind)
    &&& m.kind[0] != '/'
    &&& m.kind != seq!['>']
    &&& is_word(m.mref)
    &&& (m.feature matches Some(f) ==> f.len() == 0 || is_word(f))
    &&& forall|i: int| 0 <= i < m.attributes.len() ==> writable_attribute(#[trigger] m.attributes[i])
}

proof fn lemma_word_no_blank(t: Seq<char>)
    requires
        forall|i: int| 0 <= i < t.len() ==> !text::is_whitespace(#[trigger] t[i]),
    ensures
        text::no_sep(t, Sep::Blank),
{
    assert forall|i: int| 0 <= i < t.len() implies !text::is_sep(#[trigger] t[i], Sep::Blank) by {
        assert(!text::is_whitespace(t[i]));
    }
}

/// The words of `a b` and of `a b c`, for words `a`, `b`, `c`.
proof fn lemma_words(a: Seq<char>, b: Seq<char>, c: Seq<char>)
    requires
        is_word(a),
        is_word(b),
        c.len() == 0 || is_word(c),
    ensures
        crate::session::words(a + seq![' '] + b) == seq![a, b],
        c.len() > 0 ==> crate::session::words(a + seq![' '] + b + seq![' '] + c) == seq![a, b, c],
        c.len() == 0 ==> crate::session::words(a + seq![' '] + b + seq![' '] + c) == seq![a, b],
{
    lemma_word_no_blank(a);
    lemma_word_no_blank(b);
    let ab = a + seq![' '] + b;
    assert(ab[0] == a[0]);
    assert(ab.last() == b.last());
    text::lemma_trim_plain(ab);
    text::lemma_pieces_single(b, Sep::Blank);
    text::lemma_pieces_cons(a, ' ', b, Sep::Blank);
    let abc = ab + seq![' '] + c;
    if c.len() > 0 {
        lemma_word_no_blank(c);
        assert(abc[0] == a[0]);
        assert(abc.last() == c.last());
        text::lemma_trim_plain(abc);
        text::lemma_pieces_single(c, Sep::Blank);
        text::lemma_pieces_cons(b, ' ', c, Sep::Blank);
        assert(abc =~= a + seq![' '] + (b + seq![' '] + c));
        text::lemma_pieces_cons(a, ' ', b + seq![' '] + c, Sep::Blank);
        assert(seq![a] + (seq![b] + seq![c]) =~= seq![a, b, c]);
    } else {
        assert(abc =~= ab + seq![' ']);
    }
    assert(seq![a] + seq![b] =~= seq![a, b]);
}

/// The pieces between colons of `talker` and of `talker:port`.
proof fn lemma_talker_port(talker: Seq<char>, port: Seq<char>)
    requires
        text::no_sep(talker, Sep::Colon),
        text::no_sep(port, Sep::Colon),
    ensures
        text::pieces(talker, 0, Sep::Colon) == seq![talker],
        text::pieces(talker + seq![':'] + port, 0, Sep::Colon) == seq![talker, port],
{
    text::lemma_pieces_single(talker, Sep::Colon);
    text::lemma_pieces_single(port, Sep::Colon);
    text::lemma_pieces_cons(talker, ':', port, Sep::Colon);
    assert(seq![talker] + seq![port] =~= seq![talker, port]);
}

/// Reading an empty line changes nothing.
proof fn lemma_step_empty(d: SDecs, m: SModule)
    ensures
        crate::session::step(d, m, Seq::empty()) == Ok::<(SDecs, SModule), AttributeBeforeModule>(
            (d, m),
        ),
{
    let e = Seq::<char>::empty();
    assert(text::trim(e) =~= e);
    text::lemma_pieces_single(e, Sep::Blank);
}

/// Reading a declaration files the module being read and starts the declared one.
proof fn lemma_step_declaration(d: SDecs, m: SModule, mb: SModuleBackup)
    requires
        writable_module(mb),
    ensures
        crate::session::step(d, m, declaration_text(mb.kind, mb.mref, mb.feature)) == Ok::<
            (SDecs, SModule),
            AttributeBeforeModule,
        >((crate::session::tidy(m, d), SModule { attributs: Seq::empty(), ..read_module(mb) })),
{
    let line = declaration_text(mb.kind, mb.mref, mb.feature);
    let ws = crate::session::words(line);
    match mb.feature {
        Some(f) => {
            lemma_words(mb.kind, mb.mref, f);
            assert(line =~= mb.kind + seq![' '] + mb.mref + seq![' '] + f);
            if f.len() == 0 {
                assert(f =~= Seq::<char>::empty());
                assert(ws == seq![mb.kind, mb.mref]);
            } else {
                assert(ws == seq![mb.kind, mb.mref, f]);
            }
        },
        None => {
            lemma_words(mb.kind, mb.mref, Seq::empty());
            assert(line =~= mb.kind + seq![' '] + mb.mref);
            assert(ws == seq![mb.kind, mb.mref]);
        },
    }
    assert(ws[0] == mb.kind);
    assert(ws[0] != seq!['>']);
    assert(!(ws[0].len() > 0 && ws[0][0] == '/'));
}

/// Reading an attribute line adds the attribute to the module being read.
proof fn lemma_step_attribute(d: SDecs, m: SModule, a: (Seq<char>, Seq<char>, Seq<char>))
    requires
        m.kind.len() > 0,
        writable_attribute(a),
    ensures
        crate::session::step(d, m, attribute_text(a)) == Ok::<(SDecs, SModule), AttributeBeforeModule>(
            (d, SModule { attributs: m.attributs.push(a), ..m }),
        ),
{
    let gt = seq!['>'];
    assert(is_word(gt)) by {
        assert(!text::is_whitespace('>'));
    }
    let tp = a.1 + if a.2.len() > 0 {
        seq![':'] + a.2
    } else {
        Seq::empty()
    };
    assert(is_word(tp)) by {
        assert forall|i: int| 0 <= i < tp.len() implies !text::is_whitespace(#[trigger] tp[i]) by {
            if i < a.1.len() {
                assert(tp[i] == a.1[i]);
            } else if i == a.1.len() {
                assert(tp[i] == ':');
            } else {
                assert(tp[i] == a.2[i - a.1.len() - 1]);
            }
        }
    }
    lemma_words(gt, a.0, tp);
    assert(attribute_text(a) =~= gt + seq![' '] + a.0 + seq![' '] + tp);
    lemma_talker_port(a.1, a.2);
    let ws = crate::session::words(attribute_text(a));
    assert(ws == seq![gt, a.0, tp]);
    let tl = text::pieces(ws[2], 0, Sep::Colon);
    if a.2.len() == 0 {
        assert(tp =~= a.1);
        assert(tl == seq![a.1]);
        assert(a.2 =~= Seq::<char>::empty());
    } else {
        assert(tp =~= a.1 + seq![':'] + a.2);
        assert(tl == seq![a.1, a.2]);
    }
    assert(!(ws[0].len() > 0 && ws[0][0] == '/'));
}

/// Reading lines one after another from a state.
pub open spec fn run_lines(
    st: Result<(SDecs, SModule), AttributeBeforeModule>,
    lines: Seq<Seq<char>>,
) -> Result<(SDecs, SModule), AttributeBeforeModule>
    decreases lines.len(),
{
    if lines.len() == 0 {
        st
    } else {
        match run_lines(st, lines.drop_last()) {
            Ok((d, m)) => crate::session::step(d, m, lines.last()),
            Err(e) => Err(e),
        }
    }
}

proof fn lemma_read_lines_run(lines: Seq<Seq<char>>, k: nat)
    requires
        k <= lines.len(),
    ensures
        crate::session::read_lines(lines, k) == run_lines(
            Ok((
                crate::session::no_decs(),
                crate::session::new_module(Seq::empty(), Seq::empty(), Seq::empty()),
            )),
            lines.take(k as int),
        ),
    decreases k,
{
    if k > 0 {
        lemma_read_lines_run(lines, (k - 1) as nat);
        assert(lines.take(k as int).drop_last() =~= lines.take(k - 1));
    }
}

proof fn lemma_run_concat(
    st: Result<(SDecs, SModule), AttributeBeforeModule>,
    a: Seq<Seq<char>>,
    b: Seq<Seq<char>>,
)
    ensures
        run_lines(st, a + b) == run_lines(run_lines(st, a), b),
    decreases b.len(),
{
    if b.len() == 0 {
        assert(a + b =~= a);
    } else {
        lemma_run_concat(st, a, b.drop_last());
        assert((a + b).drop_last() =~= a + b.drop_last());
        assert((a + b).last() == b.last());
    }
}

proof fn lemma_run_attributes(d: SDecs, m: SModule, attributes: Seq<(Seq<char>, Seq<char>, Seq<char>)>)
    requires
        m.kind.len() > 0,
        forall|i: int| 0 <= i < attributes.len() ==> writable_attribute(#[trigger] attributes[i]),
    ensures
        run_lines(Ok((d, m)), attribute_lines(attributes)) == Ok::<
            (SDecs, SModule),
            AttributeBeforeModule,
        >((d, SModule { attributs: m.attributs + attributes, ..m })),
    decreases attributes.len(),
{
    if attributes.len() == 0 {
        assert(attribute_lines(attributes) =~= Seq::<Seq<char>>::empty());
        assert(m.attributs + attributes =~= m.attributs);
    } else {
        let init = attributes.drop_last();
        lemma_run_attributes(d, m, init);
        assert(attribute_lines(attributes).drop_last() =~= attribute_lines(init));
        assert(attribute_lines(attributes).last() == attribute_text(attributes.last()));
        let m1 = SModule { attributs: m.attributs + init, ..m };
        lemma_step_attribute(d, m1, attributes.last());
        assert((m.attributs + init).push(attributes.last()) =~= m.attributs + attributes);
    }
}

proof fn lemma_run_module(d: SDecs, m: SModule, mb: SModuleBackup)
    requires
        writable_module(mb),
    ensures
        run_lines(Ok((d, m)), module_lines(mb)) == Ok::<(SDecs, SModule), AttributeBeforeModule>(
            (crate::session::tidy(m, d), read_module(mb)),
        ),
{
    let head = seq![Seq::<char>::empty(), declaration_text(mb.kind, mb.mref, mb.feature)];
    lemma_run_concat(Ok((d, m)), head, attribute_lines(mb.attributes));
    lemma_step_empty(d, m);
    lemma_step_declaration(d, m, mb);
    assert(head.drop_last() =~= seq![Seq::<char>::empty()]);
    assert(seq![Seq::<char>::empty()].drop_last() =~= Seq::<Seq<char>>::empty());
    let st = Ok::<(SDecs, SModule), AttributeBeforeModule>((d, m));
    let m0 = SModule { attributs: Seq::empty(), ..read_module(mb) };
    assert(run_lines(st, Seq::<Seq<char>>::empty()) == st);
    assert(run_lines(st, seq![Seq::<char>::empty()]) == st);
    assert(run_lines(st, head) == Ok::<(SDecs, SModule), AttributeBeforeModule>(
        (crate::session::tidy(m, d), m0),
    ));
    lemma_run_attributes(crate::session::tidy(m, d), m0, mb.attributes);
    assert(Seq::<(Seq<char>, Seq<char>, Seq<char>)>::empty() + mb.attributes =~= mb.attributes);
}

proof fn lemma_run_session(modules: Seq<SModuleBackup>)
    requires
        forall|i: int| 0 <= i < modules.len() ==> writable_module(#[trigger] modules[i]),
    ensures
        modules.len() > 0 ==> run_lines(
            Ok((
                crate::session::no_decs(),
                crate::session::new_module(Seq::empty(), Seq::empty(), Seq::empty()),
            )),
            session_file_lines(modules),
        ) == Ok::<(SDecs, SModule), AttributeBeforeModule>(
            (filed(modules.drop_last()), read_module(modules.last())),
        ),
    decreases modules.len(),
{
    if modules.len() > 0 {
        let init = modules.drop_last();
        let st0 = Ok::<(SDecs, SModule), AttributeBeforeModule>(
            (
                crate::session::no_decs(),
                crate::session::new_module(Seq::empty(), Seq::empty(), Seq::empty()),
            ),
        );
        lemma_run_concat(st0, session_file_lines(init), module_lines(modules.last()));
        if init.len() > 0 {
            lemma_run_session(init);
            assert(init.last() == modules[modules.len() - 2]);
            lemma_run_module(filed(init.drop_last()), read_module(init.last()), modules.last());
        } else {
            assert(session_file_lines(init) =~= Seq::<Seq<char>>::empty());
            lemma_run_module(
                crate::session::no_decs(),
                crate::session::new_module(Seq::empty(), Seq::empty(), Seq::empty()),
                modules.last(),
            );
        }
    }
}

/// What a session file is read back as: the declarations of the lines written for
/// `modules` are those that filing the modules in order gives, for every list of modules
/// that are read back as written.
pub proof fn lemma_save_load(modules: Seq<SModuleBackup>)
    requires
        forall|i: int| 0 <= i < modules.len() ==> writable_module(#[trigger] modules[i]),
    ensures
        crate::session::declarations(session_file_lines(modules)) == Ok::<SDecs, AttributeBeforeModule>(
            filed(modules),
        ),
{
    let lines = session_file_lines(modules);
    lemma_read_lines_run(lines, lines.len());
    assert(lines.take(lines.len() as int) =~= lines);
    lemma_run_session(modules);
    if modules.len() == 0 {
        assert(lines =~= Seq::<Seq<char>>::empty());
    }
}

/// The line of an attribute (see [`attribute_text`]).
pub fn attribute_line(a: &AttributeBackup) -> (r: String)
    ensures
        r@ == attribute_text(a@),
{
    proof {
        reveal_strlit("> ");
        reveal_strlit(" ");
        reveal_strlit(":");
    }
    let mut r = "> ".to_owned();
    r.append(a.tag.as_str());
    r.append(" ");
    r.append(a.talker.as_str());
    if !a.port.as_str().is_empty() {
        r.append(":");
        r.append(a.port.as_str());
        assert(r@ =~= attribute_text(a@));
    } else {
        assert(r@ =~= attribute_text(a@));
    }
    r
}

/// The line of a module declaration (see [`declaration_text`]).
pub fn declaration_line(kind: &str, mref: &str, feature: &Option<String>) -> (r: String)
    ensures
        r@ == declaration_text(kind@, mref@, feature_view(*feature)),
{
    proof {
        reveal_strlit(" ");
    }
    let mut r = kind.to_owned();
    r.append(" ");
    r.append(mref);
    match feature {
        Some(f) => {
            r.append(" ");
            r.append(f.as_str());
        },
        None => {},
    }
    assert(r@ =~= declaration_text(kind@, mref@, feature_view(*feature)));
    r
}

/// The lines of a session file that declares `modules`, in order (see
/// [`session_file_lines`]).
pub fn session_lines(modules: &Vec<ModuleBackup>) -> (r: Vec<String>)
    ensures
        crate::session::lines_view(r@) == session_file_lines(modules_view(modules@)),
{
    let ghost mv = modules_view(modules@);
    let mut r: Vec<String> = Vec::new();
    let mut i: usize = 0;
    assert(mv.take(0) =~= Seq::<SModuleBackup>::empty());
    assert(crate::session::lines_view(r@) =~= Seq::<Seq<char>>::empty());
    while i < modules.len()
        invariant
            i <= modules@.len(),
            mv == modules_view(modules@),
            crate::session::lines_view(r@) == session_file_lines(mv.take(i as int)),
        decreases modules@.len() - i,
    {
        let m = &modules[i];
        let ghost before = crate::session::lines_view(r@);
        r.push(String::new());
        r.push(declaration_line(m.kind.as_str(), m.mref.as_str(), &m.feature));
        let ghost av = attributes_view(m.attributes@);
        assert(crate::session::lines_view(r@) =~= before + seq![
            Seq::<char>::empty(),
            declaration_text(mv[i as int].kind, mv[i as int].mref, mv[i as int].feature),
        ]);
        let mut j: usize = 0;
        while j < m.attributes.len()
            invariant
                j <= m.attributes@.len(),
                av == attributes_view(m.attributes@),
                crate::session::lines_view(r@) == before + seq![
                    Seq::<char>::empty(),
                    declaration_text(mv[i as int].kind, mv[i as int].mref, mv[i as int].feature),
                ] + attribute_lines(av.take(j as int)),
            decreases m.attributes@.len() - j,
        {
            let ghost prev = crate::session::lines_view(r@);
            r.push(attribute_line(&m.attributes[j]));
            assert(attribute_lines(av.take(j + 1)) =~= attribute_lines(av.take(j as int)).push(
                attribute_text(av[j as int]),
            ));
            assert(crate::session::lines_view(r@) =~= prev.push(attribute_text(av[j as int])));
            j = j + 1;
        }
        assert(av.take(j as int) =~= av);
        assert(mv.take(i + 1).drop_last() =~= mv.take(i as int));
        assert(mv.take(i + 1).last() == mv[i as int]);
        assert(crate::session::lines_view(r@) =~= session_file_lines(mv.take(i + 1)));
        i = i + 1;
    }
    assert(mv.take(i as int) =~= mv);
    r
}

/// The attribute that a talk of an ear is saved as, with tag `tag`: the data of a hidden
/// talker; else the reference of the talker, with the tag of its voice when that is not
/// empty.
pub fn talk_attribute(
    tag: &str,
    hidden: bool,
    data: &str,
    talker_id: u32,
    talker_name: &str,
    voice_tag: &str,
) -> (r: AttributeBackup)
    ensures
        r@ == if hidden {
            (tag@, data@, Seq::<char>::empty())
        } else {
            (tag@, crate::session::mref_text(talker_id as nat, talker_name@), voice_tag@)
        },
{
    if hidden {
        AttributeBackup { tag: tag.to_owned(), talker: data.to_owned(), port: String::new() }
    } else {
        AttributeBackup {
            tag: tag.to_owned(),
            talker: crate::session::mref(talker_id, talker_name),
            port: voice_tag.to_owned(),
        }
    }
}

} // verus!
