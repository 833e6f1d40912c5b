//! The element parser: one element is an open tag, optional attributes, and
//! either a self-closing `/>` or children followed by the matching end tag.
//! Nested elements are parsed by direct recursion.

use crate::chars::{find_char, lemma_find_char, lemma_name_end, name_end, spec_is_name_char,
    spec_is_name_start_char, spec_is_space};
use crate::cursor::{lemma_ws_end_bounds, ParserState, ws_end};
use crate::error::Error;
use crate::ord_map::{keys_unique, OrdMap, spec_contains_key};
use crate::parser::parse_name;
use crate::strings::{chars_to_string, str_eq, str_to_chars, subvec};
use crate::structure::{ElementData, Node, spec_fullname};
use vstd::prelude::*;
use vstd::string::StrSliceExecFns;

verus! {

/// How many colons `s` holds at or after index `i`.
pub open spec fn colon_count(s: Seq<char>, i: int) -> int
    decreases s.len() - i,
{
    if i < 0 || i >= s.len() {
        0
    } else {
        (if s[i] == ':' {
            1int
        } else {
            0int
        }) + colon_count(s, i + 1)
    }
}

/// Colon counts are non-negative, and zero exactly when no colon occurs at
/// or after `i`.
pub proof fn lemma_colon_count(s: Seq<char>, i: int)
    requires
        0 <= i <= s.len(),
    ensures
        0 <= colon_count(s, i),
        colon_count(s, i) == 0 <==> (forall|j: int| i <= j < s.len() ==> s[j] != ':'),
        colon_count(s, i) == 0 ==> find_char(s, i, ':') == s.len(),
    decreases s.len() - i,
{
    if i < s.len() {
        lemma_colon_count(s, i + 1);
    }
}

/// Skipping over a colon-free stretch does not change the count.
pub proof fn lemma_colon_count_skip(s: Seq<char>, i: int, k: int)
    requires
        0 <= i <= k <= s.len(),
        forall|j: int| i <= j < k ==> s[j] != ':',
    ensures
        colon_count(s, i) == colon_count(s, k),
    decreases k - i,
{
    if i < k {
        lemma_colon_count_skip(s, i + 1, k);
    }
}

/// Name splitting round trip. Without a colon, the name is kept whole and
/// the namespace is absent. With exactly one colon, the namespace and local
/// parts are each colon-free and reassemble, with the colon between them,
/// to exactly the original name — nothing is silently truncated. With two
/// or more colons, splitting always fails (`split_element_name` returns an
/// error for exactly those names).
pub proof fn lemma_split_round_trip(s: Seq<char>)
    ensures
        colon_count(s, 0) == 0 ==> find_char(s, 0, ':') == s.len(),
        colon_count(s, 0) == 1 ==> ({
            let fc = find_char(s, 0, ':');
            &&& 0 <= fc < s.len()
            &&& s[fc] == ':'
            &&& s == s.subrange(0, fc) + seq![':'] + s.subrange(fc + 1, s.len() as int)
            &&& colon_count(s.subrange(0, fc), 0) == 0
            &&& colon_count(s.subrange(fc + 1, s.len() as int), 0) == 0
        }),
{
    lemma_colon_count(s, 0);
    lemma_find_char(s, 0, ':');
    if colon_count(s, 0) == 1 {
        let fc = find_char(s, 0, ':');
        assert(fc < s.len());
        assert(s =~= s.subrange(0, fc) + seq![':'] + s.subrange(fc + 1, s.len() as int));
        lemma_colon_count_skip(s, 0, fc);
        assert(colon_count(s, fc) == 1 + colon_count(s, fc + 1));
        let prefix = s.subrange(0, fc);
        lemma_colon_count(prefix, 0);
        assert forall|j: int| 0 <= j < prefix.len() implies prefix[j] != ':' by {
            assert(prefix[j] == s[j]);
        }
        let suffix = s.subrange(fc + 1, s.len() as int);
        lemma_colon_count(suffix, 0);
        lemma_colon_count(s, fc + 1);
        assert forall|j: int| 0 <= j < suffix.len() implies suffix[j] != ':' by {
            assert(suffix[j] == s[fc + 1 + j]);
        }
    }
}

/// Every name character of `s` is a name character.
pub open spec fn valid_name_chars(s: Seq<char>) -> bool {
    forall|i: int| 0 <= i < s.len() ==> spec_is_name_char(#[trigger] s[i])
}

/// Well-formedness of a run of nodes: every element in it is well-formed.
pub open spec fn wf_nodes(s: Seq<Node>) -> bool
    decreases s,
{
    s.len() == 0 || (wf_node(s[0]) && wf_nodes(s.drop_first()))
}

/// Well-formedness of one node: only elements carry structure to check.
pub open spec fn wf_node(n: Node) -> bool
    decreases n,
{
    match n {
        Node::Element(e) => wf_element(e),
        _ => true,
    }
}

/// Well-formedness of an element as the parser builds it: names hold only
/// name characters, a namespace prefix is never empty, attribute keys are
/// unique, and every child is itself well-formed.
pub open spec fn wf_element(e: ElementData) -> bool
    decreases e,
{
    &&& valid_name_chars(e.name@)
    &&& (e.namespace matches Some(ns) ==> valid_name_chars(ns@) && ns@.len() > 0)
    &&& keys_unique(e.attributes@)
    &&& wf_nodes(e.nodes@)
}

/// A subrange of a sequence of name characters holds only name characters.
pub proof fn lemma_valid_subrange(s: Seq<char>, a: int, b: int)
    requires
        valid_name_chars(s),
        0 <= a <= b <= s.len(),
    ensures
        valid_name_chars(s.subrange(a, b)),
{
    assert forall|q: int| 0 <= q < s.subrange(a, b).len() implies spec_is_name_char(
        #[trigger] s.subrange(a, b)[q],
    ) by {
        assert(s.subrange(a, b)[q] == s[a + q]);
    }
}

/// A run of nodes is well-formed exactly when each node is.
pub proof fn lemma_wf_nodes(s: Seq<Node>)
    ensures
        wf_nodes(s) <==> (forall|i: int| 0 <= i < s.len() ==> wf_node(#[trigger] s[i])),
    decreases s,
{
    if s.len() > 0 {
        lemma_wf_nodes(s.drop_first());
        assert(forall|i: int| 1 <= i < s.len() ==> s.drop_first()[i - 1] == #[trigger] s[i]);
        if wf_node(s[0]) && wf_nodes(s.drop_first()) {
            assert forall|i: int| 0 <= i < s.len() implies wf_node(#[trigger] s[i]) by {
                if i > 0 {
                    assert(wf_node(s.drop_first()[i - 1]));
                }
            }
        }
        if forall|i: int| 0 <= i < s.len() ==> wf_node(#[trigger] s[i]) {
            assert forall|i: int| 0 <= i < s.drop_first().len() implies wf_node(
                #[trigger] s.drop_first()[i],
            ) by {
                assert(s.drop_first()[i] == s[i + 1]);
            }
        }
    }
}

/// Appending a well-formed node keeps a well-formed run well-formed.
pub proof fn lemma_wf_nodes_push(s: Seq<Node>, x: Node)
    requires
        wf_nodes(s),
        wf_node(x),
    ensures
        wf_nodes(s.push(x)),
{
    lemma_wf_nodes(s);
    lemma_wf_nodes(s.push(x));
    assert forall|i: int| 0 <= i < s.push(x).len() implies wf_node(#[trigger] s.push(x)[i]) by {
        if i < s.len() {
            assert(s.push(x)[i] == s[i]);
        } else {
            assert(s.push(x)[i] == x);
        }
    }
}

/// Split a tag name on its first colon. No colon: an empty prefix and the
/// whole input as the local part. Exactly one colon: the two sides of it.
/// Two or more colons can never be split and are an error — the name is
/// never silently truncated.
pub fn split_element_name(input: &str) -> (r: Result<(String, String), Error>)
    ensures
        match r {
            Ok(parts) => ({
                let cc = colon_count(input@, 0);
                let fc = find_char(input@, 0, ':');
                &&& cc <= 1
                &&& (cc == 0 ==> parts.0@ == Seq::<char>::empty() && parts.1@ == input@)
                &&& (cc == 1 ==> parts.0@ == input@.subrange(0, fc) && parts.1@
                    == input@.subrange(fc + 1, input@.len() as int))
            }),
            Err(e) => colon_count(input@, 0) >= 2 && e is Bug,
        },
{
    let chars = str_to_chars(input);
    let ghost s = input@;
    let mut count: usize = 0;
    let mut first: usize = 0;
    let mut i: usize = 0;
    proof {
        lemma_colon_count(s, 0);
        lemma_find_char(s, 0, ':');
    }
    while i < chars.len()
        invariant
            chars@ == s,
            i <= s.len(),
            count <= i,
            colon_count(s, 0) == count + colon_count(s, i as int),
            count > 0 ==> first == find_char(s, 0, ':') && first < i,
            count == 0 ==> find_char(s, 0, ':') == find_char(s, i as int, ':'),
        decreases s.len() - i,
    {
        if chars[i] == ':' {
            if count == 0 {
                first = i;
            }
            count = count + 1;
        }
        i = i + 1;
    }
    proof {
        lemma_colon_count(s, s.len() as int);
        assert(colon_count(s, s.len() as int) == 0);
        lemma_find_char(s, 0, ':');
    }
    if count == 0 {
        let ns = String::new();
        let local = chars_to_string(&chars);
        Ok((ns, local))
    } else if count == 1 {
        let ns_chars = subvec(&chars, 0, first);
        let local_chars = subvec(&chars, first + 1, chars.len());
        Ok((chars_to_string(&ns_chars), chars_to_string(&local_chars)))
    } else {
        Err(Error::Bug { message: String::from_str("the name cannot be split") })
    }
}

/// Build a fresh element from a tag name: the name is split on its first
/// colon into an optional namespace prefix and the local name; the element
/// starts with no attributes and no children.
pub fn make_named_element(input: &str) -> (r: Result<ElementData, Error>)
    ensures
        match r {
            Ok(el) => ({
                let cc = colon_count(input@, 0);
                let fc = find_char(input@, 0, ':');
                &&& cc <= 1
                &&& (cc == 0 ==> el.namespace is None && el.name@ == input@)
                &&& (cc == 1 && fc == 0 ==> el.namespace is None && el.name@ == input@.subrange(
                    1,
                    input@.len() as int,
                ))
                &&& (cc == 1 && fc > 0 ==> (el.namespace matches Some(ns) && ns@
                    == input@.subrange(0, fc)) && el.name@ == input@.subrange(
                    fc + 1,
                    input@.len() as int,
                ))
                &&& el.attributes@.len() == 0
                &&& el.nodes@.len() == 0
            }),
            Err(e) => colon_count(input@, 0) >= 2 && e is Bug,
        },
{
    let parts = match split_element_name(input) {
        Ok(parts) => parts,
        Err(e) => {
            return Err(e);
        },
    };
    proof {
        lemma_find_char(input@, 0, ':');
    }
    let namespace = if parts.0.as_str().unicode_len() == 0 {
        None
    } else {
        Some(parts.0)
    };
    Ok(
        ElementData {
            namespace,
            name: parts.1,
            attributes: OrdMap::new(),
            nodes: Vec::new(),
        },
    )
}

/// Accumulate raw characters up to (but not including) the next occurrence
/// of `stop`, leaving the cursor on it; reaching the end of the input first
/// is a parse error.
fn collect_until(st: &mut ParserState, stop: char) -> (r: Result<String, Error>)
    requires
        old(st).wf(),
    ensures
        final(st).wf(),
        old(st).same_input(*final(st)),
        old(st).at() <= final(st).at(),
        match r {
            Ok(text) => ({
                let e = find_char(old(st).input(), old(st).at(), stop);
                &&& e < old(st).input().len()
                &&& text@ == old(st).input().subrange(old(st).at(), e)
                &&& final(st).at() == e
                &&& final(st).cur() == stop
            }),
            Err(er) => find_char(old(st).input(), old(st).at(), stop) == old(st).input().len()
                && final(st).at() + 1 == old(st).input().len() && (er matches Error::Parse {
                position,
            } && position == final(st).position),
        },
{
    let ghost s = st.input();
    let ghost i0 = st.at();
    let mut buf: Vec<char> = Vec::new();
    proof {
        assert(buf@ =~= s.subrange(i0, i0));
    }
    loop
        invariant
            st.wf(),
            old(st).same_input(*st),
            st.input() == s,
            i0 == old(st).at(),
            s == old(st).input(),
            i0 <= st.at() < s.len(),
            buf@ == s.subrange(i0, st.at()),
            find_char(s, i0, stop) == find_char(s, st.at(), stop),
        decreases s.len() - st.at(),
    {
        if st.is(stop) {
            return Ok(chars_to_string(&buf));
        }
        buf.push(st.current());
        proof {
            assert(buf@ =~= s.subrange(i0, st.at() + 1));
        }
        match st.advance_or_die() {
            Ok(()) => {},
            Err(e) => {
                proof {
                    assert(find_char(s, st.at(), stop) == find_char(s, st.at() + 1, stop));
                    assert(find_char(s, st.at() + 1, stop) == s.len());
                }
                return Err(e);
            },
        }
    }
}

/// Collect an attribute value: raw characters up to the closing quote,
/// with no escape handling.
pub fn parse_attribute_value(st: &mut ParserState) -> (r: Result<String, Error>)
    requires
        old(st).wf(),
    ensures
        final(st).wf(),
        old(st).same_input(*final(st)),
        old(st).at() <= final(st).at(),
        match r {
            Ok(text) => ({
                let e = find_char(old(st).input(), old(st).at(), '"');
                &&& e < old(st).input().len()
                &&& text@ == old(st).input().subrange(old(st).at(), e)
                &&& final(st).at() == e
                &&& final(st).cur() == '"'
            }),
            Err(er) => find_char(old(st).input(), old(st).at(), '"') == old(st).input().len()
                && final(st).at() + 1 == old(st).input().len() && (er matches Error::Parse {
                position,
            } && position == final(st).position),
        },
{
    collect_until(st, '"')
}

/// Collect a text node: raw characters up to the next `<`, with no entity
/// decoding.
pub fn parse_text(st: &mut ParserState) -> (r: Result<String, Error>)
    requires
        old(st).wf(),
    ensures
        final(st).wf(),
        old(st).same_input(*final(st)),
        old(st).at() <= final(st).at(),
        match r {
            Ok(text) => ({
                let e = find_char(old(st).input(), old(st).at(), '<');
                &&& e < old(st).input().len()
                &&& text@ == old(st).input().subrange(old(st).at(), e)
                &&& final(st).at() == e
                &&& final(st).cur() == '<'
            }),
            Err(er) => find_char(old(st).input(), old(st).at(), '<') == old(st).input().len()
                && final(st).at() + 1 == old(st).input().len() && (er matches Error::Parse {
                position,
            } && position == final(st).position),
        },
{
    collect_until(st, '<')
}

/// The name an end tag at index `i` carries: the run of name characters
/// after `</` and any whitespace.
pub open spec fn end_tag_name(s: Seq<char>, i: int) -> Seq<char> {
    let j = ws_end(s, i + 2);
    s.subrange(j, name_end(s, j))
}

/// Whether index `i` of `s` begins a complete end tag `</name>` (whitespace
/// allowed around the name): the name and the index of the closing `>`, or
/// nothing when the shape is broken anywhere.
pub open spec fn end_tag_shape(s: Seq<char>, i: int) -> Option<(Seq<char>, int)> {
    if i < 0 || i >= s.len() || s[i] != '<' {
        None
    } else if i + 1 >= s.len() || s[i + 1] != '/' {
        None
    } else if i + 2 >= s.len() {
        None
    } else {
        let j = ws_end(s, i + 2);
        if j >= s.len() || !spec_is_name_start_char(s[j]) {
            None
        } else {
            let e = name_end(s, j);
            if e >= s.len() {
                None
            } else if s[e] == '>' {
                Some((s.subrange(j, e), e))
            } else if !spec_is_space(s[e]) {
                None
            } else {
                let k = ws_end(s, e);
                if k >= s.len() || s[k] != '>' {
                    None
                } else {
                    Some((s.subrange(j, e), k))
                }
            }
        }
    }
}

/// A complete end tag at index `i` whose name equals `full`: the index of
/// its closing `>`, or nothing on a broken shape or any other name.
pub open spec fn end_tag_run(s: Seq<char>, i: int, full: Seq<char>) -> Option<int> {
    match end_tag_shape(s, i) {
        Some(p) => if p.0 == full {
            Some(p.1)
        } else {
            None
        },
        None => None,
    }
}

/// The outcome of parsing one element from index `i`: its image and the
/// index where the parse stopped, or a failure.
pub enum ElemRun {
    Done(crate::model::ElemModel, int),
    Fail(Fault),
}

/// The outcome of collecting children from index `i`: the images collected
/// and the index where collection stopped, or a failure.
pub enum ChildrenRun {
    Done(Seq<crate::model::NodeModel>, int),
    Fail(Fault),
}

/// Parse one element of `s` from index `i`: `<`, optional whitespace, the
/// tag name split on its first colon, then either `/>`, or attributes
/// followed by `/>`, or `>` and children up to the matching end tag (or the
/// end of the input).
pub open spec fn elem_run(s: Seq<char>, i: int) -> ElemRun
    decreases s.len() - i, 0int,
{
    if i < 0 || i >= s.len() {
        ElemRun::Fail(Fault::ParseUnplaced)
    } else if s[i] != '<' {
        ElemRun::Fail(Fault::Bug)
    } else if i + 1 >= s.len() {
        ElemRun::Fail(Fault::Parse(i))
    } else {
        let j = ws_end(s, i + 1);
        if j >= s.len() {
            ElemRun::Fail(Fault::Parse(s.len() - 1))
        } else if !spec_is_name_start_char(s[j]) {
            ElemRun::Fail(Fault::Parse(j))
        } else {
            let e = name_end(s, j);
            let nv = s.subrange(j, e);
            let cc = colon_count(nv, 0);
            let fc = find_char(nv, 0, ':');
            if cc >= 2 {
                ElemRun::Fail(Fault::Bug)
            } else if e >= s.len() {
                ElemRun::Fail(Fault::Parse(s.len() - 1))
            } else {
                let ns = if cc == 0 || fc == 0 {
                    Option::<Seq<char>>::None
                } else {
                    Some(nv.subrange(0, fc))
                };
                let local = if cc == 0 {
                    nv
                } else {
                    nv.subrange(fc + 1, nv.len() as int)
                };
                let a = ws_end(s, e);
                if a >= s.len() {
                    ElemRun::Fail(Fault::Parse(s.len() - 1))
                } else if s[a] == '/' {
                    if a + 1 >= s.len() {
                        ElemRun::Fail(Fault::Parse(a))
                    } else if s[a + 1] != '>' {
                        ElemRun::Fail(Fault::Parse(a + 1))
                    } else {
                        ElemRun::Done(
                            crate::model::ElemModel {
                                namespace: ns,
                                name: local,
                                attributes: Seq::empty(),
                                children: Seq::empty(),
                            },
                            a + 1,
                        )
                    }
                } else {
                    let ar = if spec_is_name_start_char(s[a]) {
                        attrs_run(s, a, Seq::empty())
                    } else {
                        AttrsRun::Done(Seq::empty(), a)
                    };
                    match ar {
                        AttrsRun::Fail(f) => ElemRun::Fail(f),
                        AttrsRun::Done(attrs, p) => if p < 0 || p >= s.len() {
                            ElemRun::Fail(Fault::ParseUnplaced)
                        } else if s[p] == '/' {
                            if p + 1 >= s.len() {
                                ElemRun::Fail(Fault::Parse(p))
                            } else if s[p + 1] != '>' {
                                ElemRun::Fail(Fault::Parse(p + 1))
                            } else {
                                ElemRun::Done(
                                    crate::model::ElemModel {
                                        namespace: ns,
                                        name: local,
                                        attributes: attrs,
                                        children: Seq::empty(),
                                    },
                                    p + 1,
                                )
                            }
                        } else if s[p] != '>' || p + 1 >= s.len() {
                            ElemRun::Fail(Fault::Parse(p))
                        } else if i < p + 1 {
                            match children_run(s, p + 1, spec_fullname(ns, local), Seq::empty()) {
                                ChildrenRun::Done(children, q) => ElemRun::Done(
                                    crate::model::ElemModel {
                                        namespace: ns,
                                        name: local,
                                        attributes: attrs,
                                        children,
                                    },
                                    q,
                                ),
                                ChildrenRun::Fail(f) => ElemRun::Fail(f),
                            }
                        } else {
                            ElemRun::Fail(Fault::ParseUnplaced)
                        },
                    }
                }
            }
        }
    }
}

/// Collect the children of an open element named `full` from index `i`,
/// appending their images to `acc`: whitespace is skipped, an end tag must
/// name exactly `full`, any other tag is a nested element, and raw text up
/// to the next `<` becomes a text child. Collection also stops when the
/// input ends right after a child.
pub open spec fn children_run(
    s: Seq<char>,
    i: int,
    full: Seq<char>,
    acc: Seq<crate::model::NodeModel>,
) -> ChildrenRun
    decreases s.len() - i, 2int,
{
    if i < 0 || i >= s.len() {
        ChildrenRun::Fail(Fault::ParseUnplaced)
    } else {
        let w = ws_end(s, i);
        if w >= s.len() {
            ChildrenRun::Fail(Fault::Parse(s.len() - 1))
        } else if s[w] == '<' {
            if w + 1 < s.len() && s[w + 1] == '/' {
                match end_tag_run(s, w, full) {
                    Some(k) => ChildrenRun::Done(acc, k),
                    None => match end_tag_shape(s, w) {
                        Some(p) => ChildrenRun::Fail(Fault::Parse(p.1)),
                        None => ChildrenRun::Fail(Fault::ParseUnplaced),
                    },
                }
            } else if i > w {
                ChildrenRun::Fail(Fault::ParseUnplaced)
            } else {
                match elem_run(s, w) {
                    ElemRun::Done(child, q) => {
                        let acc2 = acc.push(crate::model::NodeModel::Element(child));
                        if q + 1 >= s.len() {
                            ChildrenRun::Done(acc2, q)
                        } else if i < q + 1 {
                            children_run(s, q + 1, full, acc2)
                        } else {
                            ChildrenRun::Fail(Fault::ParseUnplaced)
                        }
                    },
                    ElemRun::Fail(f) => ChildrenRun::Fail(f),
                }
            }
        } else {
            let t = find_char(s, w, '<');
            if t >= s.len() {
                ChildrenRun::Fail(Fault::Parse(s.len() - 1))
            } else {
                let acc2 = acc.push(crate::model::NodeModel::Text(s.subrange(w, t)));
                if t + 1 < s.len() && s[t + 1] == '/' {
                    match end_tag_run(s, t, full) {
                        Some(k) => ChildrenRun::Done(acc2, k),
                        None => match end_tag_shape(s, t) {
                            Some(p) => ChildrenRun::Fail(Fault::Parse(p.1)),
                            None => ChildrenRun::Fail(Fault::ParseUnplaced),
                        },
                    }
                } else if i > t {
                    ChildrenRun::Fail(Fault::ParseUnplaced)
                } else {
                    match elem_run(s, t) {
                        ElemRun::Done(child, q) => {
                            let acc3 = acc2.push(crate::model::NodeModel::Element(child));
                            if q + 1 >= s.len() {
                                ChildrenRun::Done(acc3, q)
                            } else if i < q + 1 {
                                children_run(s, q + 1, full, acc3)
                            } else {
                                ChildrenRun::Fail(Fault::ParseUnplaced)
                            }
                        },
                        ElemRun::Fail(f) => ChildrenRun::Fail(f),
                    }
                }
            }
        }
    }
}

/// A successful attribute collection ends at or past where it started and
/// within the input.
pub proof fn lemma_attrs_run_bounds(s: Seq<char>, i: int, m: Seq<(Seq<char>, Seq<char>)>)
    ensures
        attrs_run(s, i, m) matches AttrsRun::Done(k, p) ==> i <= p < s.len(),
    decreases s.len() - i,
{
    if 0 <= i < s.len() {
        let w = ws_end(s, i);
        lemma_ws_end_bounds(s, i);
        if w < s.len() && s[w] != '/' && s[w] != '>' && spec_is_name_start_char(s[w]) {
            let e = name_end(s, w);
            lemma_name_end(s, w);
            if e < s.len() {
                let k1 = ws_end(s, e);
                lemma_ws_end_bounds(s, e);
                if k1 < s.len() && s[k1] == '=' && k1 + 1 < s.len() {
                    let k2 = ws_end(s, k1 + 1);
                    lemma_ws_end_bounds(s, k1 + 1);
                    if k2 < s.len() && s[k2] == '"' && k2 + 1 < s.len() {
                        let vend = find_char(s, k2 + 1, '"');
                        lemma_find_char(s, k2 + 1, '"');
                        if vend < s.len() && !spec_contains_key(m, s.subrange(w, e)) {
                            if vend + 1 < s.len() && i < vend + 1 {
                                lemma_attrs_run_bounds(
                                    s,
                                    vend + 1,
                                    m.push((s.subrange(w, e), s.subrange(k2 + 1, vend))),
                                );
                            }
                        }
                    }
                }
            }
        }
    }
}

/// A successful element parse ends strictly past where it started and
/// within the input.
pub proof fn lemma_elem_run_bounds(s: Seq<char>, i: int)
    ensures
        elem_run(s, i) matches ElemRun::Done(m, q) ==> i < q < s.len(),
    decreases s.len() - i, 0int,
{
    if 0 <= i < s.len() && s[i] == '<' && i + 1 < s.len() {
        let j = ws_end(s, i + 1);
        lemma_ws_end_bounds(s, i + 1);
        if j < s.len() && spec_is_name_start_char(s[j]) {
            let e = name_end(s, j);
            lemma_name_end(s, j);
            if e < s.len() {
                let a = ws_end(s, e);
                lemma_ws_end_bounds(s, e);
                if a < s.len() && s[a] != '/' {
                    lemma_attrs_run_bounds(s, a, Seq::empty());
                    let ar = if spec_is_name_start_char(s[a]) {
                        attrs_run(s, a, Seq::empty())
                    } else {
                        AttrsRun::Done(Seq::empty(), a)
                    };
                    match ar {
                        AttrsRun::Done(attrs, p) => {
                            if 0 <= p < s.len() && s[p] == '>' && p + 1 < s.len() && i < p + 1 {
                                let nv = s.subrange(j, e);
                                let cc = colon_count(nv, 0);
                                let fc = find_char(nv, 0, ':');
                                let ns = if cc == 0 || fc == 0 {
                                    Option::<Seq<char>>::None
                                } else {
                                    Some(nv.subrange(0, fc))
                                };
                                let local = if cc == 0 {
                                    nv
                                } else {
                                    nv.subrange(fc + 1, nv.len() as int)
                                };
                                lemma_children_run_bounds(
                                    s,
                                    p + 1,
                                    spec_fullname(ns, local),
                                    Seq::empty(),
                                );
                            }
                        },
                        AttrsRun::Fail(_) => {},
                    }
                }
            }
        }
    }
}

/// A successful child collection ends at or past where it started and
/// within the input.
pub proof fn lemma_children_run_bounds(
    s: Seq<char>,
    i: int,
    full: Seq<char>,
    acc: Seq<crate::model::NodeModel>,
)
    ensures
        children_run(s, i, full, acc) matches ChildrenRun::Done(k, q) ==> i <= q < s.len(),
    decreases s.len() - i, 2int,
{
    if 0 <= i < s.len() {
        let w = ws_end(s, i);
        lemma_ws_end_bounds(s, i);
        if w < s.len() && s[w] == '<' {
            if w + 1 < s.len() && s[w + 1] == '/' {
                lemma_ws_end_bounds(s, w + 2);
                if end_tag_shape(s, w) matches Some(p) {
                    let j = ws_end(s, w + 2);
                    lemma_name_end(s, j);
                    lemma_ws_end_bounds(s, name_end(s, j));
                }
            } else if i <= w {
                lemma_elem_run_bounds(s, w);
                match elem_run(s, w) {
                    ElemRun::Done(child, q) => {
                        if q + 1 < s.len() && i < q + 1 {
                            lemma_children_run_bounds(
                                s,
                                q + 1,
                                full,
                                acc.push(crate::model::NodeModel::Element(child)),
                            );
                        }
                    },
                    ElemRun::Fail(_) => {},
                }
            }
        } else if w < s.len() {
            let t = find_char(s, w, '<');
            lemma_find_char(s, w, '<');
            if t < s.len() {
                let acc2 = acc.push(crate::model::NodeModel::Text(s.subrange(w, t)));
                if t + 1 < s.len() && s[t + 1] == '/' {
                    lemma_ws_end_bounds(s, t + 2);
                    if end_tag_shape(s, t) matches Some(p) {
                        let j = ws_end(s, t + 2);
                        lemma_name_end(s, j);
                        lemma_ws_end_bounds(s, name_end(s, j));
                    }
                } else if i <= t {
                    lemma_elem_run_bounds(s, t);
                    match elem_run(s, t) {
                        ElemRun::Done(child, q) => {
                            if q + 1 < s.len() && i < q + 1 {
                                lemma_children_run_bounds(
                                    s,
                                    q + 1,
                                    full,
                                    acc2.push(crate::model::NodeModel::Element(child)),
                                );
                            }
                        },
                        ElemRun::Fail(_) => {},
                    }
                }
            }
        }
    }
}

/// An end tag must name exactly the open element: wherever child collection
/// meets a complete end tag whose name differs from the open element's full
/// name, it always fails with a parse error at the end tag's closing `>` —
/// matching is by exact string equality, never case-insensitive or
/// whitespace-tolerant.
pub proof fn lemma_end_tag_must_match(
    s: Seq<char>,
    i: int,
    full: Seq<char>,
    acc: Seq<crate::model::NodeModel>,
)
    requires
        0 <= i < s.len(),
        ({
            let w = ws_end(s, i);
            w + 1 < s.len() && s[w] == '<' && s[w + 1] == '/'
        }),
        (end_tag_shape(s, ws_end(s, i)) matches Some(p) && p.0 != full),
    ensures
        children_run(s, i, full, acc) == ChildrenRun::Fail(
            Fault::Parse(end_tag_shape(s, ws_end(s, i))->Some_0.1),
        ),
{
}

/// The accumulator only rides along: collecting into `acc` collects exactly
/// what collecting into nothing does, appended to `acc`.
pub proof fn lemma_children_run_acc(
    s: Seq<char>,
    i: int,
    full: Seq<char>,
    acc: Seq<crate::model::NodeModel>,
)
    ensures
        match children_run(s, i, full, Seq::empty()) {
            ChildrenRun::Done(k, q) => children_run(s, i, full, acc) == ChildrenRun::Done(
                acc + k,
                q,
            ),
            ChildrenRun::Fail(f) => children_run(s, i, full, acc) == ChildrenRun::Fail(f),
        },
    decreases s.len() - i,
{
    if 0 <= i < s.len() {
        let w = ws_end(s, i);
        if w < s.len() && s[w] == '<' && !(w + 1 < s.len() && s[w + 1] == '/') {
            match elem_run(s, w) {
                ElemRun::Done(child, q) => {
                    let c = crate::model::NodeModel::Element(child);
                    if q + 1 >= s.len() {
                        assert(acc + seq![c] =~= acc.push(c));
                    } else if i < q + 1 {
                        lemma_children_run_acc(s, q + 1, full, seq![c]);
                        lemma_children_run_acc(s, q + 1, full, acc.push(c));
                        match children_run(s, q + 1, full, Seq::empty()) {
                            ChildrenRun::Done(k2, q2) => {
                                assert(acc.push(c) + k2 =~= acc + (seq![c] + k2));
                                assert(seq![c] + k2 =~= Seq::<
                                    crate::model::NodeModel,
                                >::empty().push(c) + k2);
                            },
                            ChildrenRun::Fail(_) => {},
                        }
                    }
                },
                ElemRun::Fail(_) => {},
            }
        } else if w < s.len() && s[w] != '<' {
            let t = find_char(s, w, '<');
            if t < s.len() {
                let tx = crate::model::NodeModel::Text(s.subrange(w, t));
                if t + 1 < s.len() && s[t + 1] == '/' {
                    match end_tag_run(s, t, full) {
                        Some(k) => {
                            assert(acc + seq![tx] =~= acc.push(tx));
                        },
                        None => {},
                    }
                } else {
                    match elem_run(s, t) {
                        ElemRun::Done(child, q) => {
                            let c = crate::model::NodeModel::Element(child);
                            if q + 1 >= s.len() {
                                assert(acc + (seq![tx] + seq![c]) =~= acc.push(tx).push(c));
                                assert(seq![tx].push(c) =~= seq![tx] + seq![c]);
                            } else if i < q + 1 {
                                lemma_children_run_acc(s, q + 1, full, seq![tx].push(c));
                                lemma_children_run_acc(s, q + 1, full, acc.push(tx).push(c));
                                match children_run(s, q + 1, full, Seq::empty()) {
                                    ChildrenRun::Done(k2, q2) => {
                                        assert(acc.push(tx).push(c) + k2 =~= acc + (seq![tx].push(
                                            c,
                                        ) + k2));
                                    },
                                    ChildrenRun::Fail(_) => {},
                                }
                            }
                        },
                        ElemRun::Fail(_) => {},
                    }
                }
            }
        } else {
            if w < s.len() && s[w] == '<' && w + 1 < s.len() && s[w + 1] == '/' {
                match end_tag_run(s, w, full) {
                    Some(k) => {
                        assert(acc + Seq::<crate::model::NodeModel>::empty() =~= acc);
                    },
                    None => {},
                }
            }
        }
    }
}

/// Parse an end tag `</name>`, allowing whitespace around the name, and
/// leave the cursor on the closing `>`.
pub fn parse_end_tag_name(st: &mut ParserState) -> (r: Result<String, Error>)
    requires
        old(st).wf(),
    ensures
        final(st).wf(),
        old(st).same_input(*final(st)),
        old(st).at() <= final(st).at(),
        match r {
            Ok(name) => ({
                let s = old(st).input();
                let i = old(st).at();
                let j = ws_end(s, i + 2);
                let e = name_end(s, j);
                let k = ws_end(s, e);
                &&& s[i] == '<' && i + 1 < s.len() && s[i + 1] == '/'
                &&& j < s.len() && spec_is_name_start_char(s[j])
                &&& name@ == s.subrange(j, e)
                &&& name@ == end_tag_name(s, i)
                &&& k < s.len() && s[k] == '>'
                &&& final(st).at() == k
                &&& final(st).at() > old(st).at()
                &&& (end_tag_shape(s, i) matches Some(p) && p.0 == name@ && p.1
                    == final(st).at())
            }),
            Err(e) => e is Parse && end_tag_shape(old(st).input(), old(st).at()) is None,
        },
{
    let ghost s = st.input();
    let ghost i0 = st.at();
    if let Err(e) = st.expect('<') {
        return Err(e);
    }
    if let Err(e) = st.advance_or_die() {
        return Err(e);
    }
    if let Err(e) = st.expect('/') {
        return Err(e);
    }
    if let Err(e) = st.advance_or_die() {
        return Err(e);
    }
    if let Err(e) = st.skip_whitespace() {
        return Err(e);
    }
    let ghost j = st.at();
    if !st.is_name_start_char() {
        return Err(st.parse_error());
    }
    let mut buf: Vec<char> = Vec::new();
    buf.push(st.current());
    proof {
        assert(buf@ =~= s.subrange(j, j + 1));
    }
    loop
        invariant
            st.wf(),
            old(st).same_input(*st),
            st.input() == s,
            i0 == old(st).at(),
            s == old(st).input(),
            0 <= i0 && i0 + 1 < s.len() && s[i0] == '<' && s[i0 + 1] == '/',
            j == ws_end(s, i0 + 2),
            i0 + 2 <= j,
            j <= st.at() < s.len(),
            spec_is_name_start_char(s[j]),
            buf@ == s.subrange(j, st.at() + 1),
            forall|q: int| j <= q <= st.at() ==> spec_is_name_char(s[q]),
            name_end(s, j) == name_end(s, st.at() + 1),
        decreases s.len() - st.at(),
    {
        if let Err(e) = st.advance_or_die() {
            proof {
                assert(name_end(s, st.at() + 1) == s.len());
            }
            return Err(e);
        }
        if st.is('>') {
            proof {
                assert(name_end(s, st.at()) == st.at());
                assert(ws_end(s, st.at()) == st.at());
            }
            return Ok(chars_to_string(&buf));
        } else if st.is_whitespace() {
            proof {
                assert(name_end(s, st.at()) == st.at());
            }
            if let Err(e) = st.skip_whitespace() {
                return Err(e);
            }
            if let Err(e) = st.expect('>') {
                return Err(e);
            }
            return Ok(chars_to_string(&buf));
        } else if st.is_name_char() {
            buf.push(st.current());
            proof {
                assert(buf@ =~= s.subrange(j, st.at() + 1));
            }
        } else {
            proof {
                assert(name_end(s, st.at()) == st.at());
            }
            return Err(st.parse_error());
        }
    }
}

/// How a parse-level run fails: a parse error at the character with the
/// given index, a parse error whose position the run model leaves unstated
/// (the shape breaks inside an end tag), or a bug-class internal error.
pub enum Fault {
    Parse(int),
    ParseUnplaced,
    Bug,
}

/// Whether an error value carries exactly what a fault prescribes: the
/// parse kind and, where the fault fixes it, the position of the character
/// at the fault's index.
pub open spec fn fault_matches(f: Fault, e: Error, s: Seq<char>) -> bool {
    match f {
        Fault::Parse(j) => e matches Error::Parse { position } && position == crate::cursor::pos_at(
            s,
            j,
        ),
        Fault::ParseUnplaced => e is Parse,
        Fault::Bug => e is Bug,
    }
}

/// The outcome of collecting attributes from index `i` into the pairs `m`:
/// the finished pairs together with the index where collection stopped (the
/// terminating `/` or `>`, or the final closing quote when the input ends
/// right after it), or a failure.
pub enum AttrsRun {
    Done(Seq<(Seq<char>, Seq<char>)>, int),
    Fail(Fault),
}

/// Collect `key="value"` attributes from index `i`: skip whitespace, stop
/// at `/` or `>`, otherwise take a name, `=`, and a quoted value, and
/// repeat. A duplicate key, a refused character, or running out of input is
/// a failure.
pub open spec fn attrs_run(s: Seq<char>, i: int, m: Seq<(Seq<char>, Seq<char>)>) -> AttrsRun
    decreases s.len() - i,
{
    if i < 0 || i >= s.len() {
        AttrsRun::Fail(Fault::ParseUnplaced)
    } else {
        let w = ws_end(s, i);
        if w >= s.len() {
            AttrsRun::Fail(Fault::Parse(s.len() - 1))
        } else if s[w] == '/' || s[w] == '>' {
            AttrsRun::Done(m, w)
        } else if !spec_is_name_start_char(s[w]) {
            AttrsRun::Fail(Fault::Parse(w))
        } else {
            let e = name_end(s, w);
            if e >= s.len() {
                AttrsRun::Fail(Fault::Parse(s.len() - 1))
            } else {
                let key = s.subrange(w, e);
                let k1 = ws_end(s, e);
                if k1 >= s.len() {
                    AttrsRun::Fail(Fault::Parse(s.len() - 1))
                } else if s[k1] != '=' || k1 + 1 >= s.len() {
                    AttrsRun::Fail(Fault::Parse(k1))
                } else {
                    let k2 = ws_end(s, k1 + 1);
                    if k2 >= s.len() {
                        AttrsRun::Fail(Fault::Parse(s.len() - 1))
                    } else if s[k2] != '"' || k2 + 1 >= s.len() {
                        AttrsRun::Fail(Fault::Parse(k2))
                    } else {
                        let vend = find_char(s, k2 + 1, '"');
                        if vend >= s.len() {
                            AttrsRun::Fail(Fault::Parse(s.len() - 1))
                        } else if spec_contains_key(m, key) {
                            AttrsRun::Fail(Fault::Bug)
                        } else {
                            let m2 = m.push((key, s.subrange(k2 + 1, vend)));
                            if vend + 1 >= s.len() {
                                AttrsRun::Done(m2, vend)
                            } else if i < vend + 1 {
                                attrs_run(s, vend + 1, m2)
                            } else {
                                AttrsRun::Fail(Fault::ParseUnplaced)
                            }
                        }
                    }
                }
            }
        }
    }
}

/// Parse zero or more `key="value"` attributes, stopping (without
/// consuming) at `/` or `>`. The result is exactly what the `attrs_run`
/// collection computes from the input characters; a duplicate key is an
/// internal error, never a silent overwrite.
#[verifier::rlimit(40)]
pub fn parse_attributes(st: &mut ParserState) -> (r: Result<OrdMap, Error>)
    requires
        old(st).wf(),
    ensures
        final(st).wf(),
        old(st).same_input(*final(st)),
        old(st).at() <= final(st).at(),
        match r {
            Ok(m) => (attrs_run(old(st).input(), old(st).at(), Seq::empty())
                matches AttrsRun::Done(pairs, j) && m@ == pairs && final(st).at() == j
                && keys_unique(m@)),
            Err(e) => (attrs_run(old(st).input(), old(st).at(), Seq::empty())
                matches AttrsRun::Fail(f) && fault_matches(f, e, old(st).input())),
        },
        r is Ok ==> final(st).cur() == '/' || final(st).cur() == '>' || final(st).at() + 1
            == final(st).input().len(),
{
    let ghost s = st.input();
    let ghost i0 = st.at();
    let mut attributes = OrdMap::new();
    proof {
        assert(attributes@ =~= Seq::<(Seq<char>, Seq<char>)>::empty());
    }
    loop
        invariant
            st.wf(),
            old(st).same_input(*st),
            st.input() == s,
            i0 == old(st).at(),
            s == old(st).input(),
            i0 <= st.at() < s.len(),
            keys_unique(attributes@),
            attrs_run(s, i0, Seq::empty()) == attrs_run(s, st.at(), attributes@),
        decreases s.len() - st.at(),
    {
        let ghost at_entry = st.at();
        let ghost m_entry = attributes@;
        if let Err(e) = st.skip_whitespace() {
            return Err(e);
        }
        let ghost w = st.at();
        if st.is('/') || st.is('>') {
            return Ok(attributes);
        }
        let key = match parse_name(st) {
            Ok(k) => k,
            Err(e) => {
                return Err(e);
            },
        };
        proof {
            lemma_name_end(s, w);
        }
        let ghost e_end = name_end(s, w);
        if let Err(e) = st.skip_whitespace() {
            return Err(e);
        }
        let ghost k1 = st.at();
        if let Err(e) = st.expect('=') {
            proof {
                if e_end == s.len() {
                    assert(spec_is_name_char(s[k1]));
                }
            }
            return Err(e);
        }
        proof {
            assert(e_end < s.len()) by {
                if e_end == s.len() {
                    assert(spec_is_name_char(s[k1]));
                }
            }
            assert(k1 == ws_end(s, e_end));
        }
        if let Err(e) = st.advance_or_die() {
            return Err(e);
        }
        if let Err(e) = st.skip_whitespace() {
            return Err(e);
        }
        let ghost k2 = st.at();
        if let Err(e) = st.expect('"') {
            return Err(e);
        }
        if let Err(e) = st.advance_or_die() {
            return Err(e);
        }
        let value = match parse_attribute_value(st) {
            Ok(v) => v,
            Err(e) => {
                return Err(e);
            },
        };
        let ghost vend = st.at();
        if let Err(e) = st.expect('"') {
            return Err(e);
        }
        if let Err(e) = attributes.insert(key, value) {
            return Err(e);
        }
        if !st.advance() {
            return Ok(attributes);
        }
    }
}

/// Whether index `i` of `s` begins a self-closing element `<name/>` (with
/// optional whitespace after `<` and after the name) whose name has no
/// colon.
pub open spec fn sc_at(s: Seq<char>, i: int) -> bool {
    let j = ws_end(s, i + 1);
    let e = name_end(s, j);
    let w = ws_end(s, e);
    &&& 0 <= i
    &&& i + 1 < s.len()
    &&& s[i] == '<'
    &&& j < s.len()
    &&& spec_is_name_start_char(s[j])
    &&& colon_count(s.subrange(j, e), 0) == 0
    &&& w + 1 < s.len()
    &&& s[w] == '/'
    &&& s[w + 1] == '>'
}

/// The tag name of the self-closing element beginning at index `i`.
pub open spec fn sc_name(s: Seq<char>, i: int) -> Seq<char> {
    s.subrange(ws_end(s, i + 1), name_end(s, ws_end(s, i + 1)))
}

/// The index of the closing `>` of the self-closing element beginning at
/// index `i`.
pub open spec fn sc_close(s: Seq<char>, i: int) -> int {
    ws_end(s, name_end(s, ws_end(s, i + 1))) + 1
}

/// Parse one element. The cursor must stand on `<`; anything else is an
/// internal error of the caller, not malformed input. On success the
/// element is well-formed; a self-closing element `<name/>` without a colon
/// in its name always succeeds with no attributes and no children.
#[verifier::rlimit(60)]
pub fn parse_element(st: &mut ParserState) -> (r: Result<ElementData, Error>)
    requires
        old(st).wf(),
    ensures
        final(st).wf(),
        old(st).same_input(*final(st)),
        old(st).at() <= final(st).at(),
        old(st).cur() != '<' ==> r is Err && (r matches Err(e) ==> e is Bug) && *final(st) == *old(
            st,
        ),
        r is Ok ==> wf_element(r->Ok_0) && final(st).at() > old(st).at(),
        r matches Ok(el) ==> ({
            let s = old(st).input();
            let j = ws_end(s, old(st).at() + 1);
            let nv = s.subrange(j, name_end(s, j));
            let cc = colon_count(nv, 0);
            let fc = find_char(nv, 0, ':');
            &&& j < s.len()
            &&& spec_is_name_start_char(s[j])
            &&& cc <= 1
            &&& (cc == 0 ==> el.namespace is None && el.name@ == nv)
            &&& (cc == 1 && fc == 0 ==> el.namespace is None && el.name@ == nv.subrange(
                1,
                nv.len() as int,
            ))
            &&& (cc == 1 && fc > 0 ==> (el.namespace matches Some(ns) && ns@ == nv.subrange(
                0,
                fc,
            )) && el.name@ == nv.subrange(fc + 1, nv.len() as int))
            &&& name_end(s, j) < s.len()
            &&& ({
                let a = ws_end(s, name_end(s, j));
                &&& a < s.len()
                &&& (spec_is_name_start_char(s[a]) ==> (attrs_run(s, a, Seq::empty())
                    matches AttrsRun::Done(pairs, k) && el.attributes@ == pairs))
                &&& (!spec_is_name_start_char(s[a]) ==> el.attributes@.len() == 0)
            })
        }),
        sc_at(old(st).input(), old(st).at()) ==> (r matches Ok(el) && el.namespace is None
            && el.name@ == sc_name(old(st).input(), old(st).at()) && el.attributes@.len() == 0
            && el.nodes@.len() == 0) && final(st).at() == sc_close(old(st).input(), old(st).at()),
        match r {
            Ok(el) => (elem_run(old(st).input(), old(st).at()) matches ElemRun::Done(m, q)
                && crate::model::elem_model(el) == m && final(st).at() == q),
            Err(e) => (elem_run(old(st).input(), old(st).at()) matches ElemRun::Fail(f)
                && fault_matches(f, e, old(st).input())),
        },
    decreases old(st).input().len() - old(st).at(), 0int,
{
    if !st.is('<') {
        return Err(Error::Bug {
            message: String::from_str("the element parser must start at '<'"),
        });
    }
    let ghost s = st.input();
    let ghost i0 = st.at();
    if let Err(e) = st.advance_or_die() {
        return Err(e);
    }
    if let Err(e) = st.skip_whitespace() {
        return Err(e);
    }
    let ghost j = st.at();
    proof {
        lemma_ws_end_bounds(s, i0 + 1);
    }
    let name = match parse_name(st) {
        Ok(n) => n,
        Err(e) => {
            return Err(e);
        },
    };
    let ghost e_end = name_end(s, j);
    proof {
        lemma_name_end(s, j);
    }
    let mut element = match make_named_element(name.as_str()) {
        Ok(el) => el,
        Err(e) => {
            proof {
                if sc_at(s, i0) {
                    lemma_colon_count(name@, 0);
                }
            }
            return Err(e);
        },
    };
    proof {
        let nv = name@;
        lemma_find_char(nv, 0, ':');
        lemma_colon_count(nv, 0);
        assert(valid_name_chars(nv)) by {
            assert forall|q: int| 0 <= q < nv.len() implies spec_is_name_char(
                #[trigger] nv[q],
            ) by {
                assert(nv[q] == s.subrange(j, e_end)[q]);
                assert(nv[q] == s[j + q]);
            }
        }
        let cc = colon_count(nv, 0);
        let fc = find_char(nv, 0, ':');
        if cc == 0 {
            assert(element.name@ == nv);
        } else {
            assert(cc == 1);
            lemma_valid_subrange(nv, fc + 1, nv.len() as int);
            if fc > 0 {
                lemma_valid_subrange(nv, 0, fc);
            }
        }
        assert(valid_name_chars(element.name@));
        assert(element.namespace matches Some(ns) ==> valid_name_chars(ns@) && ns@.len() > 0);
        assert(wf_element(element));
    }
    let ghost nv = name@;
    let ghost cc = colon_count(nv, 0);
    let ghost fc = find_char(nv, 0, ':');
    let ghost mns = if cc == 0 || fc == 0 {
        Option::<Seq<char>>::None
    } else {
        Some(nv.subrange(0, fc))
    };
    let ghost mlocal = if cc == 0 {
        nv
    } else {
        nv.subrange(fc + 1, nv.len() as int)
    };
    proof {
        assert(match element.namespace {
            Some(x) => Some(x@),
            None => None,
        } == mns);
        assert(element.name@ == mlocal);
    }
    if let Err(e) = st.skip_whitespace() {
        return Err(e);
    }
    let ghost w = st.at();
    proof {
        lemma_ws_end_bounds(s, e_end);
    }
    if st.is('/') {
        if let Err(e) = st.advance_or_die() {
            return Err(e);
        }
        if let Err(e) = st.expect('>') {
            return Err(e);
        }
        proof {
            assert(element.nodes@ =~= Seq::<Node>::empty());
            assert(crate::model::elem_model(element) =~= crate::model::ElemModel {
                namespace: mns,
                name: mlocal,
                attributes: Seq::empty(),
                children: Seq::empty(),
            });
        }
        return Ok(element);
    }
    if st.is_name_start_char() {
        let attrs = match parse_attributes(st) {
            Ok(a) => a,
            Err(e) => {
                return Err(e);
            },
        };
        element.attributes = attrs;
    }
    let ghost p = st.at();
    if st.is('/') {
        if let Err(e) = st.advance_or_die() {
            return Err(e);
        }
        if let Err(e) = st.expect('>') {
            return Err(e);
        }
        proof {
            assert(element.nodes@ =~= Seq::<Node>::empty());
            assert(crate::model::elem_model(element) =~= crate::model::ElemModel {
                namespace: mns,
                name: mlocal,
                attributes: element.attributes@,
                children: Seq::empty(),
            });
        }
        return Ok(element);
    }
    if let Err(e) = st.expect('>') {
        return Err(e);
    }
    if let Err(e) = st.advance_or_die() {
        return Err(e);
    }
    proof {
        assert(spec_fullname(
            match element.namespace {
                Some(x) => Some(x@),
                None => None,
            },
            element.name@,
        ) == spec_fullname(mns, mlocal));
        assert(crate::model::nodes_model(element.nodes@) =~= Seq::<
            crate::model::NodeModel,
        >::empty());
    }
    let ghost nodes_before = element.nodes@;
    match parse_children(st, &mut element) {
        Ok(()) => {},
        Err(e) => {
            return Err(e);
        },
    }
    proof {
        match children_run(s, p + 1, spec_fullname(mns, mlocal), Seq::empty()) {
            ChildrenRun::Done(kids, q) => {
                assert(crate::model::nodes_model(element.nodes@) =~= Seq::<
                    crate::model::NodeModel,
                >::empty() + kids);
                assert(crate::model::elem_model(element) =~= crate::model::ElemModel {
                    namespace: mns,
                    name: mlocal,
                    attributes: element.attributes@,
                    children: kids,
                });
            },
            ChildrenRun::Fail(_) => {},
        }
    }
    Ok(element)
}

/// Dispatch on a `<` seen while collecting children: an end tag `</...>`
/// must name exactly the currently open element — a mismatch always fails
/// with a parse error at the end tag's position — while anything else is
/// parsed as a nested element. `Ok(None)` signals that the matching end tag
/// was consumed.
pub fn handle_left_angle(st: &mut ParserState, parent: &ElementData) -> (r: Result<
    Option<Node>,
    Error,
>)
    requires
        old(st).wf(),
    ensures
        final(st).wf(),
        old(st).same_input(*final(st)),
        old(st).at() <= final(st).at(),
        match r {
            Ok(opt) => match opt {
                Some(node) => wf_node(node) && node is Element && final(st).at() > old(st).at()
                    && !(old(st).at() + 1 < old(st).input().len() && old(st).input()[old(st).at()
                    + 1] == '/') && (elem_run(old(st).input(), old(st).at())
                    matches ElemRun::Done(m, q) && crate::model::node_model(node)
                    == crate::model::NodeModel::Element(m) && final(st).at() == q),
                None => ({
                    &&& old(st).at() + 1 < old(st).input().len()
                    &&& old(st).input()[old(st).at() + 1] == '/'
                    &&& end_tag_name(old(st).input(), old(st).at()) == spec_fullname(
                        match parent.namespace {
                            Some(ns) => Some(ns@),
                            None => None,
                        },
                        parent.name@,
                    )
                    &&& final(st).at() > old(st).at()
                    &&& end_tag_run(
                        old(st).input(),
                        old(st).at(),
                        spec_fullname(
                            match parent.namespace {
                                Some(ns) => Some(ns@),
                                None => None,
                            },
                            parent.name@,
                        ),
                    ) == Some(final(st).at() as int)
                }),
            },
            Err(e) => ({
                let etag = old(st).at() + 1 < old(st).input().len() && old(st).input()[old(
                    st,
                ).at() + 1] == '/';
                &&& (etag ==> end_tag_run(
                    old(st).input(),
                    old(st).at(),
                    spec_fullname(
                        match parent.namespace {
                            Some(ns) => Some(ns@),
                            None => None,
                        },
                        parent.name@,
                    ),
                ) is None)
                &&& (etag ==> e is Parse)
                &&& ((etag && end_tag_shape(old(st).input(), old(st).at()) is Some) ==> ((
                e matches Error::Parse { position } && position == final(st).position)
                    && final(st).at() == end_tag_shape(old(st).input(), old(st).at())->Some_0.1))
                &&& (!etag ==> (elem_run(old(st).input(), old(st).at()) matches ElemRun::Fail(f)
                    && fault_matches(f, e, old(st).input())))
            }),
        },
        (old(st).at() + 1 < old(st).input().len() && old(st).input()[old(st).at() + 1] == '/')
            ==> !(r matches Ok(Some(_))),
    decreases old(st).input().len() - old(st).at(), 1int,
{
    if st.peek_is('/') {
        let end_name = match parse_end_tag_name(st) {
            Ok(n) => n,
            Err(e) => {
                return Err(e);
            },
        };
        let full = parent.fullname();
        if !str_eq(end_name.as_str(), full.as_str()) {
            return Err(st.parse_error());
        }
        return Ok(None);
    }
    let element = match parse_element(st) {
        Ok(el) => el,
        Err(e) => {
            return Err(e);
        },
    };
    Ok(Some(Node::Element(element)))
}

/// Collect the children of the open element `parent` until its matching
/// end tag: nested elements recurse, raw text up to the next `<` becomes a
/// text node.
#[verifier::rlimit(60)]
pub fn parse_children(st: &mut ParserState, parent: &mut ElementData) -> (r: Result<(), Error>)
    requires
        old(st).wf(),
        wf_element(*old(parent)),
    ensures
        final(st).wf(),
        old(st).same_input(*final(st)),
        old(st).at() <= final(st).at(),
        wf_element(*final(parent)),
        final(parent).name == old(parent).name,
        final(parent).namespace == old(parent).namespace,
        final(parent).attributes@ == old(parent).attributes@,
        final(parent).nodes@.len() >= old(parent).nodes@.len(),
        final(parent).nodes@.subrange(0, old(parent).nodes@.len() as int) == old(parent).nodes@,
        match r {
            Ok(()) => (children_run(
                old(st).input(),
                old(st).at(),
                spec_fullname(
                    match old(parent).namespace {
                        Some(ns) => Some(ns@),
                        None => None,
                    },
                    old(parent).name@,
                ),
                Seq::empty(),
            ) matches ChildrenRun::Done(kids, q) && crate::model::nodes_model(
                final(parent).nodes@,
            ) == crate::model::nodes_model(old(parent).nodes@) + kids && final(st).at() == q),
            Err(e) => (children_run(
                old(st).input(),
                old(st).at(),
                spec_fullname(
                    match old(parent).namespace {
                        Some(ns) => Some(ns@),
                        None => None,
                    },
                    old(parent).name@,
                ),
                Seq::empty(),
            ) matches ChildrenRun::Fail(f) && fault_matches(f, e, old(st).input())),
        },
    decreases old(st).input().len() - old(st).at(), 2int,
{
    let ghost s = st.input();
    let ghost i0 = st.at();
    let ghost full = spec_fullname(crate::model::ns_model(parent.namespace), parent.name@);
    let ghost mut added = Seq::<crate::model::NodeModel>::empty();
    proof {
        assert(crate::model::nodes_model(parent.nodes@) =~= crate::model::nodes_model(
            parent.nodes@,
        ) + added);
    }
    loop
        invariant
            st.wf(),
            old(st).same_input(*st),
            st.input() == s,
            i0 == old(st).at(),
            s == old(st).input(),
            i0 <= st.at() < s.len(),
            wf_element(*parent),
            parent.name == old(parent).name,
            parent.namespace == old(parent).namespace,
            parent.attributes@ == old(parent).attributes@,
            parent.nodes@.len() >= old(parent).nodes@.len(),
            parent.nodes@.subrange(0, old(parent).nodes@.len() as int) == old(parent).nodes@,
            full == spec_fullname(
                match old(parent).namespace {
                    Some(ns) => Some(ns@),
                    None => None,
                },
                old(parent).name@,
            ),
            crate::model::nodes_model(parent.nodes@) == crate::model::nodes_model(
                old(parent).nodes@,
            ) + added,
            children_run(s, st.at() as int, full, Seq::empty()) matches ChildrenRun::Done(k, q)
                ==> children_run(s, i0, full, Seq::empty()) == ChildrenRun::Done(added + k, q),
            children_run(s, st.at() as int, full, Seq::empty()) matches ChildrenRun::Fail(f)
                ==> children_run(s, i0, full, Seq::empty()) == ChildrenRun::Fail(f),
        decreases s.len() - st.at(),
    {
        let ghost at_e = st.at();
        let ghost added_entry = added;
        if let Err(e) = st.skip_whitespace() {
            return Err(e);
        }
        let ghost w = st.at();
        let ghost step_acc: Seq<crate::model::NodeModel>;
        if st.is('<') {
            match handle_left_angle(st, parent) {
                Ok(Some(node)) => {
                    let ghost old_nodes = parent.nodes@;
                    let ghost pushed = node;
                    parent.nodes.push(node);
                    proof {
                        lemma_wf_nodes_push(old_nodes, pushed);
                        crate::model::lemma_nodes_model_push(old_nodes, pushed);
                        added = added.push(crate::model::node_model(pushed));
                        step_acc = seq![crate::model::node_model(pushed)];
                        assert(crate::model::nodes_model(parent.nodes@) =~= crate::model::nodes_model(
                            old(parent).nodes@,
                        ) + added);
                        assert(Seq::<crate::model::NodeModel>::empty().push(
                            crate::model::node_model(pushed),
                        ) =~= step_acc);
                        assert(st.at() + 1 >= s.len() ==> children_run(s, at_e, full, Seq::empty())
                            == ChildrenRun::Done(step_acc, st.at() as int));
                        assert(st.at() + 1 < s.len() ==> children_run(s, at_e, full, Seq::empty())
                            == children_run(s, st.at() + 1, full, step_acc));
                    }
                },
                Ok(None) => {
                    proof {
                        assert(children_run(s, at_e, full, Seq::empty()) == ChildrenRun::Done(
                            Seq::empty(),
                            st.at() as int,
                        ));
                        assert(added + Seq::<crate::model::NodeModel>::empty() =~= added);
                    }
                    return Ok(());
                },
                Err(e) => {
                    return Err(e);
                },
            }
        } else {
            let text = match parse_text(st) {
                Ok(t) => t,
                Err(e) => {
                    return Err(e);
                },
            };
            let ghost t_pos = st.at();
            let text_node = Node::Text(text);
            let ghost old_nodes = parent.nodes@;
            let ghost pushed = text_node;
            parent.nodes.push(text_node);
            proof {
                lemma_wf_nodes_push(old_nodes, pushed);
                crate::model::lemma_nodes_model_push(old_nodes, pushed);
                added = added.push(crate::model::node_model(pushed));
                assert(crate::model::nodes_model(parent.nodes@) =~= crate::model::nodes_model(
                    old(parent).nodes@,
                ) + added);
            }
            let ghost tx = crate::model::node_model(pushed);
            if st.is('<') {
                match handle_left_angle(st, parent) {
                    Ok(Some(node)) => {
                        let ghost old_nodes2 = parent.nodes@;
                        let ghost pushed2 = node;
                        parent.nodes.push(node);
                        proof {
                            lemma_wf_nodes_push(old_nodes2, pushed2);
                            crate::model::lemma_nodes_model_push(old_nodes2, pushed2);
                            added = added.push(crate::model::node_model(pushed2));
                            step_acc = seq![tx].push(crate::model::node_model(pushed2));
                            assert(crate::model::nodes_model(parent.nodes@)
                                =~= crate::model::nodes_model(old(parent).nodes@) + added);
                            assert(Seq::<crate::model::NodeModel>::empty().push(tx).push(
                                crate::model::node_model(pushed2),
                            ) =~= step_acc);
                            assert(st.at() + 1 >= s.len() ==> children_run(
                                s,
                                at_e,
                                full,
                                Seq::empty(),
                            ) == ChildrenRun::Done(step_acc, st.at() as int));
                            assert(st.at() + 1 < s.len() ==> children_run(
                                s,
                                at_e,
                                full,
                                Seq::empty(),
                            ) == children_run(s, st.at() + 1, full, step_acc));
                        }
                    },
                    Ok(None) => {
                        proof {
                            assert(Seq::<crate::model::NodeModel>::empty().push(tx) =~= seq![tx]);
                            assert(children_run(s, at_e, full, Seq::empty()) == ChildrenRun::Done(
                                seq![tx],
                                st.at() as int,
                            ));
                            assert(added_entry + seq![tx] =~= added);
                        }
                        return Ok(());
                    },
                    Err(e) => {
                        return Err(e);
                    },
                }
            } else {
                proof {
                    assert(false);
                    step_acc = Seq::empty();
                }
            }
        }
        if !st.advance() {
            proof {
                assert(children_run(s, i0, full, Seq::empty()) == ChildrenRun::Done(
                    added_entry + step_acc,
                    st.at() as int,
                ));
                assert(added_entry + step_acc =~= added);
            }
            return Ok(());
        }
        proof {
            lemma_children_run_acc(s, st.at() as int, full, step_acc);
            match children_run(s, st.at() as int, full, Seq::empty()) {
                ChildrenRun::Done(k2, q2) => {
                    assert(children_run(s, at_e, full, Seq::empty()) == ChildrenRun::Done(
                        step_acc + k2,
                        q2,
                    ));
                    assert(added_entry + (step_acc + k2) =~= added + k2);
                    assert(children_run(s, i0, full, Seq::empty()) == ChildrenRun::Done(
                        added + k2,
                        q2,
                    ));
                },
                ChildrenRun::Fail(_) => {
                    assert(children_run(s, at_e, full, Seq::empty()) is Fail);
                },
            }
        }
    }
}

} // verus!
