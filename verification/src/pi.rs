//! The processing-instruction parser: a character-at-a-time state machine
//! over `<?target key="value" ...?>`, producing a target and an ordered
//! key/value map. The whole machine is mirrored by a specification
//! transition function, so the result is a function of the input characters
//! alone.

use crate::chars::{is_name_char, is_name_start_char, is_space, spec_is_name_char,
    spec_is_name_start_char, spec_is_space};
use crate::cursor::ParserState;
use crate::error::Error;
use crate::ord_map::{keys_unique, OrdMap, spec_contains_key};
use crate::strings::chars_to_string;
use crate::structure::PIData;
use vstd::prelude::*;

verus! {

/// The states of the processing-instruction machine.
#[derive(Debug, Clone, Copy, PartialEq, Eq, Structural)]
pub enum PIStatus {
    BeforeTarget,
    InsideTarget,
    AfterTarget,
    InsideKey,
    AfterKey,
    Equals,
    AfterEquals,
    ValOpenQuote,
    InsideVal,
    ValCloseQuote,
    AfterVal,
    QuestionMark,
    Close,
}

/// The machine's working state: the current status, the collected target,
/// the key/value pair being collected, and the finished pairs.
#[derive(Debug)]
pub struct PIProcessor {
    pub status: PIStatus,
    pub target: Vec<char>,
    pub key_buffer: Vec<char>,
    pub value_buffer: Vec<char>,
    pub instructions: OrdMap,
}

/// The specification-level image of a `PIProcessor`.
#[verifier::ext_equal]
pub struct PIState {
    pub status: PIStatus,
    pub target: Seq<char>,
    pub key: Seq<char>,
    pub value: Seq<char>,
    pub instructions: Seq<(Seq<char>, Seq<char>)>,
}

impl View for PIProcessor {
    type V = PIState;

    open spec fn view(&self) -> PIState {
        PIState {
            status: self.status,
            target: self.target@,
            key: self.key_buffer@,
            value: self.value_buffer@,
            instructions: self.instructions@,
        }
    }
}

/// The machine's starting state.
pub open spec fn init_pi_state() -> PIState {
    PIState {
        status: PIStatus::BeforeTarget,
        target: Seq::<char>::empty(),
        key: Seq::<char>::empty(),
        value: Seq::<char>::empty(),
        instructions: Seq::<(Seq<char>, Seq<char>)>::empty(),
    }
}

/// How a step of the machine can fail: a character the grammar refuses (a
/// parse error), or one of the two bug-class conditions of the pair-taking
/// stage.
pub enum PIFault {
    BadChar,
    EmptyKey,
    DuplicateKey,
}

/// One transition of the machine on the character `c`.
pub open spec fn spec_pi_step(st: PIState, c: char) -> Result<PIState, PIFault> {
    match st.status {
        PIStatus::BeforeTarget => if spec_is_name_start_char(c) {
            Ok(
                PIState {
                    status: PIStatus::InsideTarget,
                    target: st.target.push(c),
                    key: st.key,
                    value: st.value,
                    instructions: st.instructions,
                },
            )
        } else {
            Err(PIFault::BadChar)
        },
        PIStatus::InsideTarget => if spec_is_space(c) {
            Ok(PIState { status: PIStatus::AfterTarget, ..st })
        } else if spec_is_name_char(c) {
            Ok(PIState { target: st.target.push(c), ..st })
        } else {
            Err(PIFault::BadChar)
        },
        PIStatus::AfterTarget => if spec_is_name_start_char(c) {
            Ok(PIState { status: PIStatus::InsideKey, key: st.key.push(c), ..st })
        } else if spec_is_space(c) {
            Ok(st)
        } else {
            Err(PIFault::BadChar)
        },
        PIStatus::InsideKey => if spec_is_name_char(c) {
            Ok(PIState { key: st.key.push(c), ..st })
        } else if c == '=' {
            Ok(PIState { status: PIStatus::Equals, ..st })
        } else if spec_is_space(c) {
            Ok(PIState { status: PIStatus::AfterKey, ..st })
        } else {
            Err(PIFault::BadChar)
        },
        PIStatus::AfterKey => if c == '=' {
            Ok(PIState { status: PIStatus::Equals, ..st })
        } else if spec_is_space(c) {
            Ok(st)
        } else {
            Err(PIFault::BadChar)
        },
        PIStatus::Equals | PIStatus::AfterEquals => if c == '"' {
            Ok(PIState { status: PIStatus::ValOpenQuote, ..st })
        } else if spec_is_space(c) {
            Ok(PIState { status: PIStatus::AfterEquals, ..st })
        } else {
            Err(PIFault::BadChar)
        },
        PIStatus::ValOpenQuote | PIStatus::InsideVal => if c == '"' {
            if st.key.len() == 0 {
                Err(PIFault::EmptyKey)
            } else if spec_contains_key(st.instructions, st.key) {
                Err(PIFault::DuplicateKey)
            } else {
                Ok(
                    PIState {
                        status: PIStatus::ValCloseQuote,
                        target: st.target,
                        key: Seq::<char>::empty(),
                        value: Seq::<char>::empty(),
                        instructions: st.instructions.push((st.key, st.value)),
                    },
                )
            }
        } else {
            Ok(PIState { status: PIStatus::InsideVal, value: st.value.push(c), ..st })
        },
        PIStatus::ValCloseQuote => if spec_is_space(c) {
            Ok(PIState { status: PIStatus::AfterVal, ..st })
        } else if c == '?' {
            Ok(PIState { status: PIStatus::QuestionMark, ..st })
        } else {
            Err(PIFault::BadChar)
        },
        PIStatus::AfterVal => if spec_is_space(c) {
            Ok(st)
        } else if c == '?' {
            Ok(PIState { status: PIStatus::QuestionMark, ..st })
        } else if spec_is_name_start_char(c) {
            Ok(PIState { status: PIStatus::InsideKey, key: st.key.push(c), ..st })
        } else {
            Err(PIFault::BadChar)
        },
        PIStatus::QuestionMark => if c == '>' {
            Ok(PIState { status: PIStatus::Close, ..st })
        } else {
            Err(PIFault::BadChar)
        },
        PIStatus::Close => Ok(st),
    }
}

impl PIProcessor {
    /// A machine in its starting state.
    pub fn new() -> (r: PIProcessor)
        ensures
            r@ == init_pi_state(),
    {
        let r = PIProcessor {
            status: PIStatus::BeforeTarget,
            target: Vec::new(),
            key_buffer: Vec::new(),
            value_buffer: Vec::new(),
            instructions: OrdMap::new(),
        };
        proof {
            assert(r@ =~= init_pi_state());
        }
        r
    }

    /// Move the collected key/value pair into the instructions and clear
    /// the buffers. An empty key, or a key already present, is a bug-class
    /// error: a correct machine never reaches this point with either.
    pub fn take_buffers(&mut self) -> (r: Result<(), Error>)
        requires
            keys_unique(old(self)@.instructions),
        ensures
            keys_unique(final(self)@.instructions),
            final(self)@.status == old(self)@.status,
            final(self)@.target == old(self)@.target,
            match r {
                Ok(()) => old(self)@.key.len() > 0 && !spec_contains_key(
                    old(self)@.instructions,
                    old(self)@.key,
                ) && final(self)@.instructions == old(self)@.instructions.push(
                    (old(self)@.key, old(self)@.value),
                ) && final(self)@.key.len() == 0 && final(self)@.value.len() == 0,
                Err(e) => final(self)@ == old(self)@ && e is Bug && (old(self)@.key.len() == 0
                    || spec_contains_key(old(self)@.instructions, old(self)@.key)),
            },
    {
        if self.key_buffer.len() == 0 {
            return Err(Error::Bug {
                message: String::from_str("an empty key reached the map-insert stage"),
            });
        }
        let key = chars_to_string(&self.key_buffer);
        let value = chars_to_string(&self.value_buffer);
        match self.instructions.insert(key, value) {
            Ok(()) => {},
            Err(e) => {
                proof {
                    assert(self@ =~= old(self)@);
                }
                return Err(e);
            },
        }
        self.key_buffer.clear();
        self.value_buffer.clear();
        Ok(())
    }
}

/// Feed the current character to the machine. On success the processor is
/// exactly one specification step further; on failure it is unchanged, with
/// a parse error for a refused character and a bug-class error for the
/// pair-taking conditions.
pub fn take_processing_instruction_char(st: &ParserState, processor: &mut PIProcessor) -> (r:
    Result<(), Error>)
    requires
        st.wf(),
        keys_unique(old(processor)@.instructions),
    ensures
        keys_unique(final(processor)@.instructions),
        match r {
            Ok(()) => spec_pi_step(old(processor)@, st.cur()) == Ok::<PIState, PIFault>(
                final(processor)@,
            ),
            Err(e) => spec_pi_step(old(processor)@, st.cur()) is Err && final(processor)@ == old(
                processor,
            )@ && (spec_pi_step(old(processor)@, st.cur()) == Err::<PIState, PIFault>(
                PIFault::BadChar,
            ) ==> (e matches Error::Parse { position } && position == st.position)) && (
            spec_pi_step(old(processor)@, st.cur()) != Err::<PIState, PIFault>(PIFault::BadChar)
                ==> e is Bug),
        },
{
    let c = st.current();
    match processor.status {
        PIStatus::BeforeTarget => {
            if !is_name_start_char(c) {
                return Err(st.parse_error());
            }
            processor.target.push(c);
            processor.status = PIStatus::InsideTarget;
            proof {
                assert(spec_pi_step(old(processor)@, c)->Ok_0 =~= processor@);
            }
        },
        PIStatus::InsideTarget => {
            if is_space(c) {
                processor.status = PIStatus::AfterTarget;
            } else if is_name_char(c) {
                processor.target.push(c);
            } else {
                return Err(st.parse_error());
            }
            proof {
                assert(spec_pi_step(old(processor)@, c)->Ok_0 =~= processor@);
            }
        },
        PIStatus::AfterTarget => {
            if is_name_start_char(c) {
                processor.key_buffer.push(c);
                processor.status = PIStatus::InsideKey;
            } else if !is_space(c) {
                return Err(st.parse_error());
            }
            proof {
                assert(spec_pi_step(old(processor)@, c)->Ok_0 =~= processor@);
            }
        },
        PIStatus::InsideKey => {
            if is_name_char(c) {
                processor.key_buffer.push(c);
            } else if c == '=' {
                processor.status = PIStatus::Equals;
            } else if is_space(c) {
                processor.status = PIStatus::AfterKey;
            } else {
                return Err(st.parse_error());
            }
            proof {
                assert(spec_pi_step(old(processor)@, c)->Ok_0 =~= processor@);
            }
        },
        PIStatus::AfterKey => {
            if c == '=' {
                processor.status = PIStatus::Equals;
            } else if !is_space(c) {
                return Err(st.parse_error());
            }
            proof {
                assert(spec_pi_step(old(processor)@, c)->Ok_0 =~= processor@);
            }
        },
        PIStatus::Equals | PIStatus::AfterEquals => {
            if c == '"' {
                processor.status = PIStatus::ValOpenQuote;
            } else if is_space(c) {
                processor.status = PIStatus::AfterEquals;
            } else {
                return Err(st.parse_error());
            }
            proof {
                assert(spec_pi_step(old(processor)@, c)->Ok_0 =~= processor@);
            }
        },
        PIStatus::ValOpenQuote | PIStatus::InsideVal => {
            if c == '"' {
                match processor.take_buffers() {
                    Ok(()) => {},
                    Err(e) => {
                        return Err(e);
                    },
                }
                processor.status = PIStatus::ValCloseQuote;
                proof {
                    assert(spec_pi_step(old(processor)@, c)->Ok_0 =~= processor@);
                }
            } else {
                processor.value_buffer.push(c);
                processor.status = PIStatus::InsideVal;
                proof {
                    assert(spec_pi_step(old(processor)@, c)->Ok_0 =~= processor@);
                }
            }
        },
        PIStatus::ValCloseQuote => {
            if is_space(c) {
                processor.status = PIStatus::AfterVal;
            } else if c == '?' {
                processor.status = PIStatus::QuestionMark;
            } else {
                return Err(st.parse_error());
            }
            proof {
                assert(spec_pi_step(old(processor)@, c)->Ok_0 =~= processor@);
            }
        },
        PIStatus::AfterVal => {
            if is_space(c) {
            } else if c == '?' {
                processor.status = PIStatus::QuestionMark;
            } else if is_name_start_char(c) {
                processor.key_buffer.push(c);
                processor.status = PIStatus::InsideKey;
            } else {
                return Err(st.parse_error());
            }
            proof {
                assert(spec_pi_step(old(processor)@, c)->Ok_0 =~= processor@);
            }
        },
        PIStatus::QuestionMark => {
            if c == '>' {
                processor.status = PIStatus::Close;
            } else {
                return Err(st.parse_error());
            }
            proof {
                assert(spec_pi_step(old(processor)@, c)->Ok_0 =~= processor@);
            }
        },
        PIStatus::Close => {
            proof {
                assert(spec_pi_step(old(processor)@, c)->Ok_0 =~= processor@);
            }
        },
    }
    Ok(())
}

/// The outcome of running the machine from index `i`: it closes at some
/// index, refuses a character at some index, or runs out of input.
pub enum PIRun {
    Done(PIState, int),
    Fail(PIFault, int),
    Eof(int),
}

/// Run the machine over `s` from index `i`, one character per step, until
/// it closes, refuses a character, or exhausts the input.
pub open spec fn spec_pi_run(s: Seq<char>, i: int, pst: PIState) -> PIRun
    decreases s.len() - i,
{
    if i < 0 || i >= s.len() {
        PIRun::Eof(i)
    } else {
        match spec_pi_step(pst, s[i]) {
            Err(f) => PIRun::Fail(f, i),
            Ok(n) => if n.status == PIStatus::Close {
                PIRun::Done(n, i)
            } else if i + 1 < s.len() {
                spec_pi_run(s, i + 1, n)
            } else {
                PIRun::Eof(i)
            },
        }
    }
}

/// The machine's key invariant: whenever a key has been begun and its value
/// not yet finished, the key buffer is non-empty.
pub open spec fn pi_key_inv(st: PIState) -> bool {
    (st.status == PIStatus::InsideKey || st.status == PIStatus::AfterKey || st.status
        == PIStatus::Equals || st.status == PIStatus::AfterEquals || st.status
        == PIStatus::ValOpenQuote || st.status == PIStatus::InsideVal) ==> st.key.len() > 0
}

/// Every step from a state satisfying the key invariant preserves it, and
/// such a step can never fail with an empty key.
pub proof fn lemma_pi_step_keeps_key(st: PIState, c: char)
    requires
        pi_key_inv(st),
    ensures
        spec_pi_step(st, c) matches Ok(n) ==> pi_key_inv(n),
        spec_pi_step(st, c) != Err::<PIState, PIFault>(PIFault::EmptyKey),
{
}

/// The empty-key bug is unreachable from any valid input: running the
/// machine from its starting state — or any state satisfying the key
/// invariant — never ends in the empty-key fault, whatever the characters
/// are. An invalid transition would have to slip through a status check
/// first.
pub proof fn lemma_pi_empty_key_unreachable(s: Seq<char>, i: int, st: PIState)
    requires
        pi_key_inv(st),
    ensures
        !(spec_pi_run(s, i, st) matches PIRun::Fail(PIFault::EmptyKey, _)),
    decreases s.len() - i,
{
    if 0 <= i < s.len() {
        lemma_pi_step_keeps_key(st, s[i]);
        match spec_pi_step(st, s[i]) {
            Ok(n) => {
                if n.status != PIStatus::Close && i + 1 < s.len() {
                    lemma_pi_empty_key_unreachable(s, i + 1, n);
                }
            },
            Err(_) => {},
        }
    }
}

/// A machine run that closes does so within the input, at or after where
/// it started.
pub proof fn lemma_pi_run_bounds(s: Seq<char>, i: int, pst: PIState)
    ensures
        spec_pi_run(s, i, pst) matches PIRun::Done(n, j) ==> i <= j < s.len(),
    decreases s.len() - i,
{
    if 0 <= i < s.len() {
        match spec_pi_step(pst, s[i]) {
            Ok(n) => {
                if n.status != PIStatus::Close && i + 1 < s.len() {
                    lemma_pi_run_bounds(s, i + 1, n);
                }
            },
            Err(_) => {},
        }
    }
}

/// Parse one processing instruction, the cursor standing on its first
/// character (after `<?`). The result is exactly what the specification
/// machine computes from the input characters: re-parsing the same
/// characters always yields the same target and pairs.
pub fn parse_pi(st: &mut ParserState) -> (r: Result<PIData, Error>)
    requires
        old(st).wf(),
    ensures
        final(st).wf(),
        old(st).same_input(*final(st)),
        old(st).at() <= final(st).at(),
        match r {
            Ok(pi) => (spec_pi_run(old(st).input(), old(st).at(), init_pi_state())
                matches PIRun::Done(fst, j) && pi.target@ == fst.target && pi.instructions@
                == fst.instructions && keys_unique(pi.instructions@) && final(st).at() == j),
            Err(e) => ({
                let run = spec_pi_run(old(st).input(), old(st).at(), init_pi_state());
                &&& !(run is Done)
                &&& (run matches PIRun::Fail(f, j) ==> final(st).at() == j && (f
                    == PIFault::BadChar ==> (e matches Error::Parse { position } && position
                    == final(st).position)) && (f != PIFault::BadChar ==> e is Bug))
                &&& (run matches PIRun::Eof(j) ==> final(st).at() == j && (
                e matches Error::Parse { position } && position == final(st).position))
            }),
        },
{
    let ghost s = st.input();
    let ghost i0 = st.at();
    let mut processor = PIProcessor::new();
    loop
        invariant
            st.wf(),
            old(st).same_input(*st),
            st.input() == s,
            i0 == old(st).at(),
            s == old(st).input(),
            i0 <= st.at() < s.len(),
            keys_unique(processor@.instructions),
            processor@.status != PIStatus::Close,
            spec_pi_run(s, i0, init_pi_state()) == spec_pi_run(s, st.at(), processor@),
        decreases s.len() - st.at(),
    {
        let ghost before = processor@;
        match take_processing_instruction_char(st, &mut processor) {
            Ok(()) => {},
            Err(e) => {
                proof {
                    assert(spec_pi_run(s, st.at(), before) matches PIRun::Fail(f, j) && j
                        == st.at());
                }
                return Err(e);
            },
        }
        if processor.status == PIStatus::Close {
            proof {
                assert(spec_pi_run(s, st.at(), before) matches PIRun::Done(fst, j) && fst
                    == processor@ && j == st.at());
            }
            let target = chars_to_string(&processor.target);
            return Ok(PIData { target, instructions: processor.instructions });
        }
        if !st.advance() {
            proof {
                assert(spec_pi_run(s, st.at(), before) is Eof);
            }
            return Err(st.parse_error());
        }
    }
}

} // verus!
