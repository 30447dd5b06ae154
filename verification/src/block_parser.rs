//! The query block parser: a two-state machine over the line stream. While
//! waiting it ignores lines until the start marker of the file role matches
//! and opens a block under the captured query id; inside a block it parses
//! each line as a token record until the end marker closes the block. One
//! active pattern is tracked and toggled between the start and the end
//! marker. A results file scores each block against the loaded ground truth
//! the moment it closes; input ending inside a block is a fatal error.

use vstd::prelude::*;

use crate::markers::first_capture;
use crate::markers::gt_end_pattern;
use crate::markers::gt_start_pattern;
use crate::markers::is_marker_pattern;
use crate::markers::marker_capture;
use crate::markers::res_end_pattern;
use crate::markers::res_start_pattern;
use crate::metrics::EvalError;
use crate::metrics::IndexModel;
use crate::metrics::MAX_RANKED_RESULTS;
use crate::metrics::RetrievalData;
use crate::metrics::TableModel;
use crate::metrics::index_wf;
use crate::metrics::spec_score_query;
use crate::metrics::spec_upsert;
use crate::metrics::upsert_entry;
use crate::record_line::parse_tokenstring_fast;
use crate::record_line::spec_parse_record;
use crate::tokens::RelevantToken;
use crate::tokens::TokenModel;
use crate::tokens::token_model_wf;

verus! {

/// The role of an input file: ranked results or ground-truth relevance
/// judgements. The two roles share the block structure and differ in their
/// marker tag names.
#[derive(Debug, Clone, Copy, PartialEq, Eq, Structural)]
pub enum FileType {
    ResultsFile,
    RelevantTokensFile,
}

/// The two states of the block parser: between blocks, or inside the block
/// of a query.
#[derive(Debug)]
pub enum ParsingState {
    WaitingNextQuery,
    InQueryBlock(String),
}

impl View for ParsingState {
    type V = Option<Seq<char>>;

    open spec fn view(&self) -> Option<Seq<char>> {
        match self {
            ParsingState::WaitingNextQuery => None,
            ParsingState::InQueryBlock(q) => Some(q@),
        }
    }
}

/// The active pattern: the start marker of the file role while waiting, its
/// end marker inside a block.
pub open spec fn spec_pattern(ft: FileType, in_block: bool) -> Seq<char> {
    match ft {
        FileType::RelevantTokensFile => if in_block {
            gt_end_pattern()
        } else {
            gt_start_pattern()
        },
        FileType::ResultsFile => if in_block {
            res_end_pattern()
        } else {
            res_start_pattern()
        },
    }
}

/// The machine as the contracts see it: the state, the records of the open
/// block, the completed blocks, and the metrics table.
pub struct MachineModel {
    pub state: Option<Seq<char>>,
    pub buffer: Seq<TokenModel>,
    pub built: IndexModel,
    pub table: TableModel,
}

/// A machine about to read its first line, with the table as it stands.
pub open spec fn init_machine(table: TableModel) -> MachineModel {
    MachineModel { state: None, buffer: Seq::empty(), built: Seq::empty(), table }
}

/// One line of input: a matching active pattern opens or closes a block — a
/// closing block of a results file is scored at once — and any other line is
/// ignored while waiting and parsed as a record inside a block.
pub open spec fn spec_step(
    ft: FileType,
    rel: Option<IndexModel>,
    m: MachineModel,
    line: Seq<char>,
) -> Result<MachineModel, EvalError> {
    match marker_capture(spec_pattern(ft, m.state is Some), line) {
        Some(cap) => match m.state {
            None => Ok(MachineModel { state: Some(cap), ..m }),
            Some(q) => {
                let built2 = spec_upsert(m.built, q, m.buffer);
                match ft {
                    FileType::ResultsFile => match spec_score_query(rel, m.table, q, m.buffer) {
                        Err(e) => Err(e),
                        Ok(t2) => Ok(
                            MachineModel {
                                state: None,
                                buffer: Seq::empty(),
                                built: built2,
                                table: t2,
                            },
                        ),
                    },
                    FileType::RelevantTokensFile => Ok(
                        MachineModel {
                            state: None,
                            buffer: Seq::empty(),
                            built: built2,
                            table: m.table,
                        },
                    ),
                }
            },
        },
        None => match m.state {
            None => Ok(m),
            Some(_) => match spec_parse_record(line) {
                Err(e) => Err(EvalError::Record(e)),
                Ok(tok) => Ok(MachineModel { buffer: m.buffer.push(tok), ..m }),
            },
        },
    }
}

/// The machine run over a whole line stream; an error carries the metrics
/// table as it stood when the run aborted.
pub open spec fn spec_run(
    ft: FileType,
    rel: Option<IndexModel>,
    m: MachineModel,
    lines: Seq<Seq<char>>,
) -> Result<MachineModel, (EvalError, TableModel)>
    decreases lines.len(),
{
    if lines.len() == 0 {
        Ok(m)
    } else {
        match spec_step(ft, rel, m, lines[0]) {
            Err(e) => Err((e, m.table)),
            Ok(m2) => spec_run(ft, rel, m2, lines.skip(1)),
        }
    }
}

/// The active pattern as a string slice.
fn pattern_for(ft: FileType, in_block: bool) -> (s: &'static str)
    ensures
        s@ == spec_pattern(ft, in_block),
        is_marker_pattern(s@),
{
    match ft {
        FileType::RelevantTokensFile => if in_block {
            "</GTRel>"
        } else {
            "<GTRel queryid=\"([\\s\\S]*?)\">"
        },
        FileType::ResultsFile => if in_block {
            "</Rel>"
        } else {
            "<Rel queryid=\"([\\s\\S]*?)\">"
        },
    }
}

impl RetrievalData {
    /// Parse a whole line stream of the given file role.
    ///
    /// On success the completed blocks become the relevance index or the
    /// result index, by role; a results file additionally has each block
    /// scored at the moment it closes, so the metrics table ends as the
    /// machine run leaves it. On an error nothing is stored, the indexes are
    /// untouched, and the metrics table stands exactly as it did when the
    /// run aborted. Input ending inside a block is an error.
    pub fn parse_lines(&mut self, ft: FileType, lines: &Vec<String>) -> (r: Result<(), EvalError>)
        requires
            old(self).wf(),
            lines@.len() <= MAX_RANKED_RESULTS,
        ensures
            final(self).wf(),
            ({
                let run = spec_run(
                    ft,
                    old(self).rel_model(),
                    init_machine(old(self).table_model()),
                    lines.deep_view(),
                );
                match r {
                    Ok(()) => {
                        &&& run is Ok
                        &&& run->Ok_0.state is None
                        &&& final(self).table_model() == run->Ok_0.table
                        &&& (ft matches FileType::RelevantTokensFile ==> final(self).rel_model()
                            == Some(run->Ok_0.built) && final(self).result_tokens == old(
                            self,
                        ).result_tokens)
                        &&& (ft matches FileType::ResultsFile ==> final(self).res_model() == Some(
                            run->Ok_0.built,
                        ) && final(self).relevant_tokens == old(self).relevant_tokens)
                    },
                    Err(e) => {
                        &&& final(self).relevant_tokens == old(self).relevant_tokens
                        &&& final(self).result_tokens == old(self).result_tokens
                        &&& match run {
                            Ok(mf) => e == EvalError::UnterminatedBlock && mf.state is Some
                                && final(self).table_model() == mf.table,
                            Err((e2, t)) => e == e2 && final(self).table_model() == t,
                        }
                    },
                }
            }),
    {
        let ghost rel = old(self).rel_model();
        let ghost linesm = lines.deep_view();
        let ghost m0 = init_machine(old(self).table_model());
        let mut state = ParsingState::WaitingNextQuery;
        let mut buffer: Vec<RelevantToken> = Vec::new();
        let mut built: Vec<(String, Vec<RelevantToken>)> = Vec::new();
        proof {
            assert(linesm.skip(0) =~= linesm);
            assert(buffer.deep_view() =~= Seq::<TokenModel>::empty());
            assert(built.deep_view() =~= Seq::<(Seq<char>, Seq<TokenModel>)>::empty());
        }
        let n = lines.len();
        let mut i: usize = 0;
        while i < n
            invariant
                i <= n == lines@.len(),
                lines@.len() <= MAX_RANKED_RESULTS,
                linesm == lines.deep_view(),
                rel == old(self).rel_model(),
                m0 == init_machine(old(self).table_model()),
                self.wf(),
                self.relevant_tokens == old(self).relevant_tokens,
                self.result_tokens == old(self).result_tokens,
                buffer@.len() <= i,
                forall|j: int| 0 <= j < buffer@.len() ==> token_model_wf(#[trigger] buffer@[j]@),
                index_wf(built.deep_view()),
                spec_run(ft, rel, m0, linesm) == spec_run(
                    ft,
                    rel,
                    MachineModel {
                        state: state@,
                        buffer: buffer.deep_view(),
                        built: built.deep_view(),
                        table: self.table_model(),
                    },
                    linesm.skip(i as int),
                ),
            decreases n - i,
        {
            let ghost cur = MachineModel {
                state: state@,
                buffer: buffer.deep_view(),
                built: built.deep_view(),
                table: self.table_model(),
            };
            proof {
                assert(linesm.skip(i as int)[0] == linesm[i as int]);
                assert(linesm.skip(i as int).skip(1) =~= linesm.skip(i + 1));
                assert(linesm[i as int] == lines@[i as int]@);
                assert(linesm.skip(i as int).len() > 0);
            }
            let in_block = match &state {
                ParsingState::WaitingNextQuery => false,
                ParsingState::InQueryBlock(_) => true,
            };
            let pat = pattern_for(ft, in_block);
            match first_capture(pat, lines[i].as_str()) {
                Some(cap) => {
                    match state {
                        ParsingState::WaitingNextQuery => {
                            state = ParsingState::InQueryBlock(cap);
                        },
                        ParsingState::InQueryBlock(q) => {
                            match ft {
                                FileType::ResultsFile => {
                                    match self.store_all_numerical_results(&q, &buffer) {
                                        Ok(()) => {},
                                        Err(e) => {
                                            proof {
                                                assert(spec_step(ft, rel, cur, linesm[i as int])
                                                    == Err::<MachineModel, EvalError>(e));
                                                assert(spec_run(
                                                    ft,
                                                    rel,
                                                    cur,
                                                    linesm.skip(i as int),
                                                ) == Err::<MachineModel, (EvalError, TableModel)>(
                                                    (e, cur.table),
                                                ));
                                                assert(final(self).table_model() == cur.table);
                                            }
                                            return Err(e);
                                        },
                                    }
                                },
                                FileType::RelevantTokensFile => {},
                            }
                            let done = buffer;
                            buffer = Vec::new();
                            upsert_entry(&mut built, &q, done);
                            state = ParsingState::WaitingNextQuery;
                            proof {
                                assert(buffer.deep_view() =~= Seq::<TokenModel>::empty());
                                assert forall|j: int| 0 <= j < cur.buffer.len() implies
                                    token_model_wf(#[trigger] cur.buffer[j]) by {}
                                crate::metrics::lemma_upsert_index_wf(cur.built, q@, cur.buffer);
                            }
                        },
                    }
                },
                None => {
                    match &state {
                        ParsingState::WaitingNextQuery => {},
                        ParsingState::InQueryBlock(_) => {
                            match parse_tokenstring_fast(lines[i].as_str()) {
                                Ok(tok) => {
                                    buffer.push(tok);
                                    proof {
                                        assert(buffer.deep_view() =~= cur.buffer.push(tok@));
                                    }
                                },
                                Err(pe) => {
                                    proof {
                                        assert(spec_step(ft, rel, cur, linesm[i as int]) == Err::<
                                            MachineModel,
                                            EvalError,
                                        >(EvalError::Record(pe)));
                                        assert(spec_run(ft, rel, cur, linesm.skip(i as int))
                                            == Err::<MachineModel, (EvalError, TableModel)>(
                                            (EvalError::Record(pe), cur.table),
                                        ));
                                        assert(self.table_model() == cur.table);
                                    }
                                    return Err(EvalError::Record(pe));
                                },
                            }
                        },
                    }
                },
            }
            proof {
                let next = MachineModel {
                    state: state@,
                    buffer: buffer.deep_view(),
                    built: built.deep_view(),
                    table: self.table_model(),
                };
                assert(spec_step(ft, rel, cur, linesm[i as int]) == Ok::<MachineModel, EvalError>(
                    next,
                ));
            }
            i = i + 1;
        }
        proof {
            assert(linesm.skip(n as int) =~= Seq::<Seq<char>>::empty());
        }
        match state {
            ParsingState::InQueryBlock(_) => Err(EvalError::UnterminatedBlock),
            ParsingState::WaitingNextQuery => {
                match ft {
                    FileType::RelevantTokensFile => {
                        self.relevant_tokens = Some(built);
                    },
                    FileType::ResultsFile => {
                        self.result_tokens = Some(built);
                    },
                }
                Ok(())
            },
        }
    }
}

} // verus!
