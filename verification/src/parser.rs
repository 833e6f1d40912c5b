//! The top-level document parser: consumes an optional XML declaration
//! (which must come first), rejects comments, and delegates to the element
//! parser for the root.

use crate::chars::{lemma_name_end, name_end, spec_is_name_char, spec_is_name_start_char,
    spec_is_space};
use crate::cursor::{lemma_ws_end_bounds, ParserState, ws_end};
use crate::element::{elem_run, ElemRun, Fault, fault_matches, parse_element, sc_at, sc_close,
    sc_name, wf_node};
use crate::error::Error;
use crate::ord_map::spec_get;
use crate::pi::{init_pi_state, parse_pi, PIRun, spec_pi_run};
use crate::strings::{chars_to_string, str_eq, str_to_chars};
use crate::structure::{Declaration, Document, Encoding, Node, PIData, Version};
use vstd::prelude::*;

verus! {

/// Where the document-level driver stands: the XML declaration may only be
/// consumed while the status is still `BeforeDeclaration`.
#[derive(Debug, Clone, Copy, PartialEq, Eq, Structural, Hash)]
pub enum DocStatus {
    BeforeDeclaration,
    AfterDeclaration,
    BeforeRoot,
    ProcessingRoot,
    AfterRoot,
}

impl Default for DocStatus {
    /// Parsing starts before the declaration.
    fn default() -> (r: DocStatus)
        ensures
            r == DocStatus::BeforeDeclaration,
    {
        DocStatus::BeforeDeclaration
    }
}

/// Parse one name: the current character must be a name-start character,
/// and the name runs while characters satisfy the name grammar, stopping
/// (without consuming the terminator) on the first character that does not.
pub fn parse_name(st: &mut ParserState) -> (r: Result<String, Error>)
    requires
        old(st).wf(),
    ensures
        final(st).wf(),
        old(st).same_input(*final(st)),
        old(st).at() <= final(st).at(),
        match r {
            Ok(name) => ({
                let end = name_end(old(st).input(), old(st).at());
                &&& spec_is_name_start_char(old(st).cur())
                &&& name@ == old(st).input().subrange(old(st).at(), end)
                &&& (end < old(st).input().len() ==> final(st).at() == end)
                &&& (end == old(st).input().len() ==> final(st).at() == end - 1)
            }),
            Err(e) => !spec_is_name_start_char(old(st).cur()) && *final(st) == *old(st) && (
            e matches Error::Parse { position } && position == old(st).position),
        },
{
    if !st.is_name_start_char() {
        return Err(st.parse_error());
    }
    let ghost s = st.input();
    let ghost i0 = st.at();
    let mut buf: Vec<char> = Vec::new();
    buf.push(st.current());
    proof {
        assert(buf@ =~= s.subrange(i0, i0 + 1));
    }
    loop
        invariant
            st.wf(),
            old(st).same_input(*st),
            st.input() == s,
            i0 == old(st).at(),
            s == old(st).input(),
            old(st).cur() == s[i0],
            i0 <= st.at() < s.len(),
            buf@ == s.subrange(i0, st.at() + 1),
            spec_is_name_start_char(s[i0]),
            forall|j: int| i0 <= j <= st.at() ==> spec_is_name_char(s[j]),
            name_end(s, i0) == name_end(s, st.at() + 1),
        decreases s.len() - st.at(),
    {
        if !st.advance() {
            proof {
                assert(name_end(s, st.at() + 1) == s.len());
            }
            return Ok(chars_to_string(&buf));
        }
        if !st.is_name_char() {
            proof {
                assert(name_end(s, st.at()) == st.at());
            }
            return Ok(chars_to_string(&buf));
        }
        buf.push(st.current());
        proof {
            assert(buf@ =~= s.subrange(i0, st.at() + 1));
        }
    }
}

/// The XML declaration must be the first construct of the document: a
/// declaration placed anywhere later is a parse error at its position.
pub fn state_must_be_before_declaration(st: &ParserState) -> (r: Result<(), Error>)
    ensures
        match r {
            Ok(()) => st.doc_status == DocStatus::BeforeDeclaration,
            Err(e) => st.doc_status != DocStatus::BeforeDeclaration && (e matches Error::Parse {
                position,
            } && position == st.position),
        },
{
    if st.doc_status != DocStatus::BeforeDeclaration {
        Err(st.parse_error())
    } else {
        Ok(())
    }
}

/// Comments are categorically unsupported: seeing one is always a parse
/// error at the current position, never a skip.
pub fn no_comments(st: &ParserState) -> (r: Result<(), Error>)
    ensures
        r matches Err(e) && (e matches Error::Parse { position } && position == st.position),
{
    Err(st.parse_error())
}

/// Whether every key of the instruction map is one the declaration
/// recognises: `version` or `encoding`.
pub open spec fn decl_keys_recognized(m: Seq<(Seq<char>, Seq<char>)>) -> bool {
    forall|i: int| 0 <= i < m.len() ==> (#[trigger] m[i]).0 == "version"@ || m[i].0
        == "encoding"@
}

/// The declaration a parsed processing instruction denotes: the target must
/// be `xml`, at most two keys are allowed, every key must be `version` or
/// `encoding`, and only the recognised values of those keys pass; anything
/// else denotes nothing.
pub open spec fn decl_of(target: Seq<char>, m: Seq<(Seq<char>, Seq<char>)>) -> Option<
    Declaration,
> {
    if target != "xml"@ || m.len() > 2 || !decl_keys_recognized(m) {
        None
    } else {
        let v = match spec_get(m, "version"@) {
            Some(x) => if x == "1.0"@ {
                Some(Some(Version::One))
            } else if x == "1.1"@ {
                Some(Some(Version::OneDotOne))
            } else {
                None
            },
            None => Some(None),
        };
        let e = match spec_get(m, "encoding"@) {
            Some(x) => if x == "UTF-8"@ {
                Some(Some(Encoding::Utf8))
            } else {
                None
            },
            None => Some(None),
        };
        match (v, e) {
            (Some(version), Some(encoding)) => Some(Declaration { version, encoding }),
            _ => None,
        }
    }
}

/// Translate a parsed processing instruction into the XML declaration. The
/// target must be `xml`, at most two keys are allowed, every key must be
/// `version` or `encoding`, and only `version` (`"1.0"` or `"1.1"`) and
/// `encoding` (`"UTF-8"`) values are recognised; anything else is rejected.
pub fn parse_declaration(pi_data: &PIData) -> (r: Result<Declaration, Error>)
    ensures
        match r {
            Ok(d) => {
                &&& pi_data.target@ == "xml"@
                &&& pi_data.instructions@.len() <= 2
                &&& decl_keys_recognized(pi_data.instructions@)
                &&& (match spec_get(pi_data.instructions@, "version"@) {
                    Some(v) => (v == "1.0"@ && d.version == Some(Version::One)) || (v == "1.1"@
                        && d.version == Some(Version::OneDotOne)),
                    None => d.version is None,
                })
                &&& (match spec_get(pi_data.instructions@, "encoding"@) {
                    Some(v) => v == "UTF-8"@ && d.encoding == Some(Encoding::Utf8),
                    None => d.encoding is None,
                })
            },
            Err(e) => e is Bug && (pi_data.target@ != "xml"@ || pi_data.instructions@.len() > 2
                || !decl_keys_recognized(pi_data.instructions@) || (spec_get(
                pi_data.instructions@,
                "version"@,
            ) matches Some(v) && v != "1.0"@ && v != "1.1"@) || (spec_get(
                pi_data.instructions@,
                "encoding"@,
            ) matches Some(v) && v != "UTF-8"@)),
        },
        match r {
            Ok(d) => decl_of(pi_data.target@, pi_data.instructions@) == Some(d),
            Err(e) => decl_of(pi_data.target@, pi_data.instructions@) is None,
        },
{
    let mut declaration = Declaration { version: None, encoding: None };
    if !str_eq(pi_data.target.as_str(), "xml") {
        return Err(Error::Bug {
            message: String::from_str("unsupported processing instruction target"),
        });
    }
    let pairs = pi_data.instructions.map();
    let mut i: usize = 0;
    while i < pairs.len()
        invariant
            pi_data.instructions@.len() == pairs@.len(),
            forall|j: int| 0 <= j < pairs@.len() ==> ((#[trigger] pairs@[j]).0@, pairs@[j].1@)
                == pi_data.instructions@[j],
            i <= pairs@.len(),
            forall|j: int| 0 <= j < i ==> (#[trigger] pi_data.instructions@[j]).0 == "version"@
                || pi_data.instructions@[j].0 == "encoding"@,
        decreases pairs@.len() - i,
    {
        let key = pairs[i].0.as_str();
        if !str_eq(key, "version") && !str_eq(key, "encoding") {
            proof {
                assert(pi_data.instructions@[i as int].0 == pairs@[i as int].0@);
                assert(!decl_keys_recognized(pi_data.instructions@));
            }
            return Err(Error::Bug {
                message: String::from_str("unrecognized key in the xml declaration"),
            });
        }
        i = i + 1;
    }
    if pi_data.instructions.len() > 2 {
        return Err(Error::Bug {
            message: String::from_str("too many keys in the xml declaration"),
        });
    }
    match pi_data.instructions.get("version") {
        Some(val) => {
            if str_eq(val.as_str(), "1.0") {
                declaration.version = Some(Version::One);
            } else if str_eq(val.as_str(), "1.1") {
                declaration.version = Some(Version::OneDotOne);
            } else {
                return Err(Error::Bug {
                    message: String::from_str("unrecognized version in the xml declaration"),
                });
            }
        },
        None => {},
    }
    match pi_data.instructions.get("encoding") {
        Some(val) => {
            if str_eq(val.as_str(), "UTF-8") {
                declaration.encoding = Some(Encoding::Utf8);
            } else {
                return Err(Error::Bug {
                    message: String::from_str("unrecognized encoding in the xml declaration"),
                });
            }
        },
        None => {},
    }
    Ok(declaration)
}

/// A finished document is sound when its root is an element and that
/// element is well-formed.
pub open spec fn wf_document(d: Document) -> bool {
    d.root is Element && wf_node(d.root)
}

/// Whether the whole input is one self-closing element, possibly preceded
/// by nothing: the element starts at `i` and its closing `>` is the last
/// character.
pub open spec fn sc_doc(s: Seq<char>, i: int) -> bool {
    sc_at(s, i) && sc_close(s, i) == s.len() - 1
}

/// Whether the input from `i` on is exactly one root element — no
/// declaration and no comment — surrounded by nothing but whitespace.
pub open spec fn plain_doc(s: Seq<char>, i: int) -> bool {
    let f = ws_end(s, i);
    &&& 0 <= i <= s.len()
    &&& f < s.len()
    &&& s[f] == '<'
    &&& (f + 1 < s.len() ==> s[f + 1] != '?' && s[f + 1] != '-')
    &&& (elem_run(s, f) matches ElemRun::Done(m, q) && ws_end(s, q + 1) == s.len())
}

/// Whether the input from `i` on is an XML declaration followed by one
/// root element, all amid whitespace only: the declaration's instruction
/// characters drive the machine to a close, denote an accepted declaration,
/// and the element parse succeeds with only whitespace after it.
pub open spec fn decl_doc(s: Seq<char>, i: int) -> bool {
    let f = ws_end(s, i);
    &&& 0 <= i <= s.len()
    &&& f + 2 < s.len()
    &&& s[f] == '<'
    &&& s[f + 1] == '?'
    &&& (spec_pi_run(s, f + 2, init_pi_state()) matches PIRun::Done(pst, pend) && decl_of(
        pst.target,
        pst.instructions,
    ) is Some && ({
        let f2 = ws_end(s, pend + 1);
        &&& f2 < s.len()
        &&& s[f2] == '<'
        &&& (f2 + 1 < s.len() ==> s[f2 + 1] != '?' && s[f2 + 1] != '-')
        &&& (elem_run(s, f2) matches ElemRun::Done(m, q) && ws_end(s, q + 1) == s.len())
    }))
}

/// What the top-level loop leaves behind on success: a newly consumed
/// declaration (or none), and the image of the last root element parsed (or
/// none when no element occurred).
pub enum DocRun {
    Done(Option<Declaration>, Option<crate::model::ElemModel>),
    Fail(crate::element::Fault),
}

/// Run the top-level loop of the document parser over `s` from index `i`:
/// skip whitespace and stop at the end of the input; `<?` is the
/// declaration, allowed only while `can_decl` still holds; `<` then `-` is
/// the comment rejection; any other `<` parses the root element (a later
/// element replaces an earlier root); any other character fails.
pub open spec fn doc_run(
    s: Seq<char>,
    i: int,
    can_decl: bool,
    decl: Option<Declaration>,
    root: Option<crate::model::ElemModel>,
) -> DocRun
    decreases s.len() - i,
{
    if i < 0 {
        DocRun::Fail(Fault::ParseUnplaced)
    } else if i >= s.len() {
        DocRun::Done(decl, root)
    } else {
        let w = ws_end(s, i);
        if w >= s.len() {
            DocRun::Done(decl, root)
        } else if s[w] != '<' {
            DocRun::Fail(Fault::Parse(w))
        } else if w + 1 >= s.len() {
            DocRun::Fail(Fault::Parse(w))
        } else if s[w + 1] == '?' {
            if !can_decl {
                DocRun::Fail(Fault::Parse(w))
            } else if w + 2 >= s.len() {
                DocRun::Fail(Fault::Parse(w + 1))
            } else {
                match spec_pi_run(s, w + 2, init_pi_state()) {
                    PIRun::Done(pst, pend) => match decl_of(pst.target, pst.instructions) {
                        Some(d) => if pend + 1 >= s.len() {
                            DocRun::Done(Some(d), root)
                        } else if i < pend + 1 {
                            doc_run(s, pend + 1, false, Some(d), root)
                        } else {
                            DocRun::Fail(Fault::ParseUnplaced)
                        },
                        None => DocRun::Fail(Fault::Bug),
                    },
                    PIRun::Fail(f, j) => if f is BadChar {
                        DocRun::Fail(Fault::Parse(j))
                    } else {
                        DocRun::Fail(Fault::Bug)
                    },
                    PIRun::Eof(j) => DocRun::Fail(Fault::Parse(j)),
                }
            }
        } else if s[w + 1] == '-' {
            DocRun::Fail(Fault::Parse(w))
        } else {
            match elem_run(s, w) {
                ElemRun::Done(m, q) => if q + 1 >= s.len() {
                    DocRun::Done(decl, Some(m))
                } else if i < q + 1 {
                    doc_run(s, q + 1, false, decl, Some(m))
                } else {
                    DocRun::Fail(Fault::ParseUnplaced)
                },
                ElemRun::Fail(f) => DocRun::Fail(f),
            }
        }
    }
}

/// A plain document runs to completion: the declaration argument is kept
/// and the root is exactly the element's image.
pub proof fn lemma_plain_doc_run(
    s: Seq<char>,
    i: int,
    can_decl: bool,
    decl: Option<Declaration>,
    root: Option<crate::model::ElemModel>,
)
    requires
        plain_doc(s, i),
    ensures
        elem_run(s, ws_end(s, i)) matches ElemRun::Done(m, q) && doc_run(
            s,
            i,
            can_decl,
            decl,
            root,
        ) == DocRun::Done(decl, Some(m)),
{
    let f = ws_end(s, i);
    lemma_ws_end_bounds(s, i);
    crate::element::lemma_elem_run_bounds(s, f);
    match elem_run(s, f) {
        ElemRun::Done(m, q) => {
            if q + 1 < s.len() {
                lemma_ws_end_bounds(s, q + 1);
                assert(doc_run(s, q + 1, false, decl, Some(m)) == DocRun::Done(decl, Some(m)));
            }
        },
        ElemRun::Fail(_) => {},
    }
}

/// A declaration-then-element document runs to completion: the declaration
/// denoted by the instruction characters is taken up and the root is
/// exactly the element's image.
pub proof fn lemma_decl_doc_run(s: Seq<char>, i: int)
    requires
        decl_doc(s, i),
    ensures
        spec_pi_run(s, ws_end(s, i) + 2, init_pi_state()) matches PIRun::Done(pst, pend) && (
        elem_run(s, ws_end(s, pend + 1)) matches ElemRun::Done(m, q) && doc_run(
            s,
            i,
            true,
            None,
            None,
        ) == DocRun::Done(decl_of(pst.target, pst.instructions), Some(m))),
{
    let f = ws_end(s, i);
    lemma_ws_end_bounds(s, i);
    match spec_pi_run(s, f + 2, init_pi_state()) {
        PIRun::Done(pst, pend) => {
            crate::pi::lemma_pi_run_bounds(s, f + 2, init_pi_state());
            let f2 = ws_end(s, pend + 1);
            lemma_ws_end_bounds(s, pend + 1);
            crate::element::lemma_elem_run_bounds(s, f2);
            match elem_run(s, f2) {
                ElemRun::Done(m, q) => {
                    match decl_of(pst.target, pst.instructions) {
                        Some(d) => {
                            assert(pend + 1 < s.len());
                            assert(doc_run(s, pend + 1, false, Some(d), None) == DocRun::Done(
                                Some(d),
                                Some(m),
                            )) by {
                                assert(ws_end(s, pend + 1) == f2);
                                if q + 1 < s.len() {
                                    lemma_ws_end_bounds(s, q + 1);
                                    assert(doc_run(s, q + 1, false, Some(d), Some(m))
                                        == DocRun::Done(Some(d), Some(m)));
                                }
                            }
                        },
                        None => {},
                    }
                },
                ElemRun::Fail(_) => {},
            }
        },
        _ => {},
    }
}

/// A lone self-closing element is such a plain document, and the element
/// parse yields exactly a childless, attributeless element of its name.
pub proof fn lemma_sc_plain(s: Seq<char>, i: int)
    requires
        sc_doc(s, i),
    ensures
        plain_doc(s, i),
        ws_end(s, i) == i,
        elem_run(s, i) == ElemRun::Done(
            crate::model::ElemModel {
                namespace: None,
                name: sc_name(s, i),
                attributes: Seq::empty(),
                children: Seq::empty(),
            },
            sc_close(s, i),
        ),
{
    let j = ws_end(s, i + 1);
    let e = name_end(s, j);
    let nv = s.subrange(j, e);
    let w = ws_end(s, e);
    lemma_ws_end_bounds(s, i + 1);
    lemma_name_end(s, j);
    lemma_ws_end_bounds(s, e);
    crate::element::lemma_colon_count(nv, 0);
    crate::chars::lemma_find_char(nv, 0, ':');
    assert(ws_end(s, i) == i);
    assert(s[i + 1] != '?' && s[i + 1] != '-') by {
        if j == i + 1 {
            assert(spec_is_name_start_char(s[i + 1]));
        } else {
            assert(spec_is_space(s[i + 1]));
        }
    }
    assert(e < s.len());
    assert(elem_run(s, i) == ElemRun::Done(
        crate::model::ElemModel {
            namespace: None,
            name: nv,
            attributes: Seq::empty(),
            children: Seq::empty(),
        },
        w + 1,
    ));
    assert(ws_end(s, w + 1 + 1) == s.len());
}

/// The top-level loop: skip whitespace between constructs; on `<` peek the
/// next character — `?` starts the declaration (allowed only first), `-`
/// marks a comment (always refused), anything else is the root element.
/// Any other character at top level is a parse error. The outcome is total:
/// success exactly when the document-level run succeeds, with the
/// declaration and root it computes.
#[verifier::rlimit(60)]
pub fn parse_document(st: &mut ParserState, document: &mut Document) -> (r: Result<(), Error>)
    requires
        old(st).wf(),
        old(document).root is Element,
        wf_node(old(document).root),
    ensures
        final(st).wf(),
        final(st).chars@ == old(st).chars@,
        old(st).at() <= final(st).at(),
        final(document).root is Element,
        wf_node(final(document).root),
        match r {
            Ok(()) => (doc_run(
                old(st).input(),
                old(st).at(),
                old(st).doc_status == DocStatus::BeforeDeclaration,
                None,
                None,
            ) matches DocRun::Done(d, rm) && final(document).declaration == (match d {
                Some(x) => Some(x),
                None => old(document).declaration,
            }) && (match rm {
                Some(m) => final(document).root matches Node::Element(el)
                    && crate::model::elem_model(el) == m,
                None => final(document).root == old(document).root,
            })),
            Err(e) => (doc_run(
                old(st).input(),
                old(st).at(),
                old(st).doc_status == DocStatus::BeforeDeclaration,
                None,
                None,
            ) matches DocRun::Fail(f) && fault_matches(f, e, old(st).input())),
        },
{
    let ghost s = st.input();
    let ghost i0 = st.at();
    let ghost can0 = st.doc_status == DocStatus::BeforeDeclaration;
    let ghost mut d_acc: Option<Declaration> = None;
    let ghost mut r_acc: Option<crate::model::ElemModel> = None;
    loop
        invariant_except_break
            st.wf(),
            st.chars@ == old(st).chars@,
            s == old(st).input(),
            i0 == old(st).at(),
            can0 == (old(st).doc_status == DocStatus::BeforeDeclaration),
            i0 <= st.at() < s.len(),
            document.root is Element,
            wf_node(document.root),
            document.declaration == (match d_acc {
                Some(x) => Some(x),
                None => old(document).declaration,
            }),
            (match r_acc {
                Some(m) => document.root matches Node::Element(el)
                    && crate::model::elem_model(el) == m,
                None => document.root == old(document).root,
            }),
            doc_run(s, i0, can0, None, None) == doc_run(
                s,
                st.at() as int,
                st.doc_status == DocStatus::BeforeDeclaration,
                d_acc,
                r_acc,
            ),
        ensures
            st.wf(),
            st.chars@ == old(st).chars@,
            i0 <= st.at(),
            document.root is Element,
            wf_node(document.root),
            doc_run(s, i0, can0, None, None) matches DocRun::Done(d, rm) && document.declaration
                == (match d {
                Some(x) => Some(x),
                None => old(document).declaration,
            }) && (match rm {
                Some(m) => document.root matches Node::Element(el)
                    && crate::model::elem_model(el) == m,
                None => document.root == old(document).root,
            }),
        decreases s.len() - st.at(),
    {
        let ghost at_e = st.at();
        let ghost can_e = st.doc_status == DocStatus::BeforeDeclaration;
        if st.is_whitespace() {
            proof {
                assert(ws_end(s, at_e as int) == ws_end(s, at_e + 1));
                let w = ws_end(s, at_e as int);
                lemma_ws_end_bounds(s, at_e as int);
                if w < s.len() && s[w] == '<' && w + 1 < s.len() {
                    if s[w + 1] == '?' && can_e && w + 2 < s.len() {
                        crate::pi::lemma_pi_run_bounds(s, w + 2, init_pi_state());
                    } else if s[w + 1] != '?' && s[w + 1] != '-' {
                        crate::element::lemma_elem_run_bounds(s, w);
                    }
                }
                assert(doc_run(s, at_e as int, can_e, d_acc, r_acc) == doc_run(
                    s,
                    at_e + 1,
                    can_e,
                    d_acc,
                    r_acc,
                ));
            }
            if !st.advance() {
                proof {
                    assert(ws_end(s, at_e + 1) == s.len());
                    assert(doc_run(s, at_e as int, can_e, d_acc, r_acc) == DocRun::Done(
                        d_acc,
                        r_acc,
                    ));
                }
                break ;
            }
            continue ;
        } else if !st.is('<') {
            return Err(st.parse_error());
        }
        proof {
            assert(ws_end(s, at_e as int) == at_e as int);
        }
        let next = match st.peek_or_die() {
            Ok(c) => c,
            Err(e) => {
                return Err(e);
            },
        };
        if next == '?' {
            if let Err(e) = state_must_be_before_declaration(st) {
                return Err(e);
            }
            if let Err(e) = st.advance_or_die() {
                return Err(e);
            }
            if let Err(e) = st.advance_or_die() {
                return Err(e);
            }
            let pi_data = match parse_pi(st) {
                Ok(p) => p,
                Err(e) => {
                    return Err(e);
                },
            };
            let declaration = match parse_declaration(&pi_data) {
                Ok(d) => d,
                Err(e) => {
                    return Err(e);
                },
            };
            document.declaration = Some(declaration);
            st.doc_status = DocStatus::AfterDeclaration;
            proof {
                d_acc = Some(declaration);
            }
        } else if next == '-' {
            no_comments(st)?;
        } else {
            let element = match parse_element(st) {
                Ok(el) => el,
                Err(e) => {
                    return Err(e);
                },
            };
            proof {
                r_acc = Some(crate::model::elem_model(element));
            }
            document.root = Node::Element(element);
            st.doc_status = DocStatus::AfterRoot;
        }
        if !st.advance() {
            proof {
                assert(doc_run(s, at_e as int, can_e, d_acc, r_acc) == DocRun::Done(
                    d_acc,
                    r_acc,
                ));
            }
            break ;
        }
        proof {
            assert(doc_run(s, at_e as int, can_e, d_acc, r_acc) == doc_run(
                s,
                st.at() as int,
                false,
                d_acc,
                r_acc,
            ));
        }
    }
    Ok(())
}

/// Parse a whole XML document from a string. Empty input fails; otherwise
/// the outcome is total: success exactly when the document-level run
/// succeeds, with the declaration and root it computes. On success the
/// root is a well-formed element. A document that is one self-closing
/// element `<name/>` always parses to an element of that name with no
/// attributes and no children.
pub fn parse_str(s: &str) -> (r: Result<Document, Error>)
    ensures
        r matches Ok(doc) ==> wf_document(doc),
        (s@.len() == 0 || s@.len() >= usize::MAX) ==> r is Err,
        (0 < s@.len() < usize::MAX) ==> (match r {
            Ok(doc) => (doc_run(s@, 0, true, None, None) matches DocRun::Done(d, rm)
                && doc.declaration == (match d {
                Some(x) => Some(x),
                None => None,
            }) && (match rm {
                Some(m) => doc.root matches Node::Element(el) && crate::model::elem_model(el)
                    == m,
                None => doc.root matches Node::Element(el) && el.namespace is None && el.name@
                    == Seq::<char>::empty() && el.attributes@.len() == 0 && el.nodes@.len() == 0,
            })),
            Err(e) => (doc_run(s@, 0, true, None, None) matches DocRun::Fail(f)
                && fault_matches(f, e, s@)),
        }),
        (plain_doc(s@, 0) && s@.len() < usize::MAX) ==> (r matches Ok(doc)
            && doc.declaration is None && (elem_run(s@, ws_end(s@, 0)) matches ElemRun::Done(m, q)
            && (doc.root matches Node::Element(el) && crate::model::elem_model(el) == m))),
        (decl_doc(s@, 0) && s@.len() < usize::MAX) ==> (r matches Ok(doc) && (spec_pi_run(
            s@,
            ws_end(s@, 0) + 2,
            init_pi_state(),
        ) matches PIRun::Done(pst, pend) && doc.declaration == decl_of(
            pst.target,
            pst.instructions,
        ) && (elem_run(s@, ws_end(s@, pend + 1)) matches ElemRun::Done(m, q) && (
        doc.root matches Node::Element(el) && crate::model::elem_model(el) == m)))),
        (sc_doc(s@, 0) && s@.len() < usize::MAX) ==> (r matches Ok(doc) && doc.declaration is None
            && (doc.root matches Node::Element(el) && el.namespace is None && el.name@ == sc_name(
            s@,
            0,
        ) && el.attributes@.len() == 0 && el.nodes@.len() == 0)),
{
    proof {
        if sc_doc(s@, 0) {
            lemma_sc_plain(s@, 0);
        }
        if plain_doc(s@, 0) {
            lemma_plain_doc_run(s@, 0, true, None, None);
        }
        if decl_doc(s@, 0) {
            lemma_decl_doc_run(s@, 0);
        }
    }
    let chars = str_to_chars(s);
    let mut iter = match ParserState::new(chars, DocStatus::BeforeDeclaration) {
        Ok(i) => i,
        Err(e) => {
            return Err(e);
        },
    };
    let mut document = Document::new();
    match parse_document(&mut iter, &mut document) {
        Ok(()) => {},
        Err(e) => {
            return Err(e);
        },
    }
    Ok(document)
}



} // verus!
