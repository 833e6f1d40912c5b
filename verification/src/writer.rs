//! Rendering a document back to text. Only the skeleton exists: a document
//! whose root is not an element is refused as a data-integrity error, text
//! nodes are emitted verbatim, and writing an element's own tag structure is
//! not implemented yet — an element contributes nothing to the output.

use crate::error::Error;
use crate::structure::{Document, ElementData, Node};
use vstd::prelude::*;
use vstd::string::StringExecFns;

verus! {

/// How many characters of indentation each nesting level adds.
#[derive(Debug, Clone, PartialEq, Eq, Structural)]
pub enum Indent {
    Off,
    Spaces(usize),
    Tab,
}

impl Default for Indent {
    /// Two spaces per level.
    fn default() -> (r: Indent)
        ensures
            r == Indent::Spaces(2usize),
    {
        Indent::Spaces(2)
    }
}

/// Which line ending to emit.
#[derive(Debug, Clone, PartialEq, Eq, Structural)]
pub enum Newline {
    Off,
    Newline,
    Windows,
}

impl Default for Newline {
    /// A bare newline.
    fn default() -> (r: Newline)
        ensures
            r == Newline::Newline,
    {
        Newline::Newline
    }
}

/// The output options: indentation and line endings.
#[derive(Debug, Clone, PartialEq, Eq, Structural)]
pub struct WriteOpts {
    pub indent: Indent,
    pub newline: Newline,
}

impl Default for WriteOpts {
    /// Two spaces of indentation and bare newlines.
    fn default() -> (r: WriteOpts)
        ensures
            r.indent == Indent::Spaces(2usize),
            r.newline == Newline::Newline,
    {
        WriteOpts { indent: Indent::Spaces(2), newline: Newline::Newline }
    }
}

/// The line-ending characters of a `Newline` choice.
pub open spec fn spec_newline_str(n: Newline) -> Seq<char> {
    match n {
        Newline::Off => Seq::<char>::empty(),
        Newline::Newline => seq!['\n'],
        Newline::Windows => seq!['\n', '\r'],
    }
}

/// `s` repeated `n` times, end to end.
pub open spec fn repeat_seq(s: Seq<char>, n: int) -> Seq<char>
    decreases n,
{
    if n <= 0 {
        Seq::<char>::empty()
    } else {
        repeat_seq(s, n - 1) + s
    }
}

/// The indentation emitted before a node `depth` levels deep.
pub open spec fn spec_indent(ind: Indent, depth: int) -> Seq<char> {
    match ind {
        Indent::Off => Seq::<char>::empty(),
        Indent::Spaces(n) => repeat_seq(seq![' '], depth * n),
        Indent::Tab => repeat_seq(seq!['\t'], depth),
    }
}

impl WriteOpts {
    /// The line-ending string of these options.
    pub fn newline_str(&self) -> (r: &'static str)
        ensures
            r@ == spec_newline_str(self.newline),
    {
        match self.newline {
            Newline::Off => {
                let r = "";
                proof {
                    reveal_strlit("");
                    assert(r@ =~= spec_newline_str(self.newline));
                }
                r
            },
            Newline::Newline => {
                let r = "\n";
                proof {
                    reveal_strlit("\n");
                    assert(r@ =~= spec_newline_str(self.newline));
                }
                r
            },
            Newline::Windows => {
                let r = "\n\r";
                proof {
                    reveal_strlit("\n\r");
                    assert(r@ =~= spec_newline_str(self.newline));
                }
                r
            },
        }
    }

    /// `s` repeated `num` times.
    pub fn write_repeatedly(num: usize, s: &str) -> (r: String)
        ensures
            r@ == repeat_seq(s@, num as int),
    {
        let mut acc = String::new();
        let mut i: usize = 0;
        while i < num
            invariant
                i <= num,
                acc@ == repeat_seq(s@, i as int),
            decreases num - i,
        {
            acc.append(s);
            i = i + 1;
        }
        acc
    }

    /// The indentation for a node `depth` levels deep.
    pub fn indent(&self, depth: usize) -> (r: String)
        requires
            self.indent matches Indent::Spaces(n) ==> depth * n <= usize::MAX,
        ensures
            r@ == spec_indent(self.indent, depth as int),
    {
        match self.indent {
            Indent::Off => String::new(),
            Indent::Spaces(n) => {
                let r = Self::write_repeatedly(depth * n, " ");
                proof {
                    reveal_strlit(" ");
                    assert(" "@ =~= seq![' ']);
                }
                r
            },
            Indent::Tab => {
                let r = Self::write_repeatedly(depth, "\t");
                proof {
                    reveal_strlit("\t");
                    assert("\t"@ =~= seq!['\t']);
                }
                r
            },
        }
    }

    /// The line ending, as an owned string.
    pub fn newline(&self) -> (r: String)
        ensures
            r@ == spec_newline_str(self.newline),
    {
        String::from_str(self.newline_str())
    }
}

/// What a node contributes to the output: a text node its characters,
/// everything else nothing for now.
pub open spec fn spec_write_node(n: Node) -> Seq<char> {
    match n {
        Node::Text(s) => s@,
        _ => Seq::<char>::empty(),
    }
}

impl Node {
    /// Render one node with the given options at the given depth.
    pub fn write(&self, opts: &WriteOpts, depth: usize) -> (r: Result<String, Error>)
        ensures
            r matches Ok(out) && out@ == spec_write_node(*self),
    {
        match self {
            Node::Text(s) => Ok(s.clone()),
            _ => Ok(String::new()),
        }
    }
}

impl ElementData {
    /// Render this element. A placeholder marker is all that is written so
    /// far, and it is checked to be at least as long as the smallest
    /// possible element.
    pub fn to_writer(&self) -> (r: Result<String, Error>)
        ensures
            r matches Ok(out) && out@ == "poo!"@,
    {
        let out = String::from_str("poo!");
        if out.as_str().unicode_len() < 4 {
            proof {
                reveal_strlit("poo!");
            }
            return Err(Error::Bug {
                message: String::from_str("failed to write the element: too small"),
            });
        }
        Ok(out)
    }
}

impl Document {
    /// Render this document's root element with the placeholder writer.
    pub fn to_writer(&self) -> (r: Result<String, Error>)
        ensures
            match r {
                Ok(out) => self.root is Element && out@ == "poo!"@,
                Err(e) => !(self.root is Element) && e is Bug,
            },
    {
        match &self.root {
            Node::Element(e) => e.to_writer(),
            _ => Err(Error::Bug {
                message: String::from_str("the root is not a node of element type"),
            }),
        }
    }

    /// Render the document with default options. The root must be an
    /// element; any other root kind is a data-integrity error.
    pub fn write(&self) -> (r: Result<String, Error>)
        ensures
            match r {
                Ok(out) => self.root is Element && out@ == spec_write_node(self.root),
                Err(e) => !(self.root is Element) && e is Bug,
            },
    {
        let opts = WriteOpts { indent: Indent::Spaces(2), newline: Newline::Newline };
        self.write_opts(&opts)
    }

    /// Render the document with the given options. The root must be an
    /// element; any other root kind is a data-integrity error.
    pub fn write_opts(&self, opts: &WriteOpts) -> (r: Result<String, Error>)
        ensures
            match r {
                Ok(out) => self.root is Element && out@ == spec_write_node(self.root),
                Err(e) => !(self.root is Element) && e is Bug,
            },
    {
        match &self.root {
            Node::Element(_) => self.root.write(opts, 0),
            _ => Err(Error::Bug {
                message: String::from_str("the root is not a node of element type"),
            }),
        }
    }
}

} // verus!
