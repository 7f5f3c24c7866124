//! Ingestion pipeline planning.
//!
//! Ingestion parses each document into a command record and turns every
//! valid example pair into one row to store: the four text fields plus the
//! composite text handed to the embedding provider.  The caller computes
//! the embedding for each row and attaches it; a row is stored only if the
//! embedding has exactly four bytes per dimension.

use vstd::prelude::*;
use crate::parser::{parse_tldr, ExamplePairV, description_of, examples_of};

verus! {

/// Number of dimensions of an embedding vector.
pub const EMBEDDING_DIM: usize = 384;

/// Number of bytes of a serialized embedding: four per dimension.
pub const EMBEDDING_BYTES: usize = 1536;

/// A raw reference document: its identifier (the command name) and its
/// full text.
#[derive(Debug, Clone, PartialEq, Eq)]
pub struct Document {
    pub name: String,
    pub text: String,
}

/// Mathematical value of a [`Document`].
pub struct DocumentV {
    pub name: Seq<char>,
    pub text: Seq<char>,
}

impl DeepView for Document {
    type V = DocumentV;

    open spec fn deep_view(&self) -> DocumentV {
        DocumentV { name: self.name@, text: self.text@ }
    }
}

/// One row to store, before its embedding is computed.
#[derive(Debug, Clone, PartialEq, Eq)]
pub struct PendingExample {
    pub command: String,
    pub description: String,
    pub example_description: String,
    pub example_command: String,
    pub embed_input: String,
}

/// Mathematical value of a [`PendingExample`].
pub struct PendingExampleV {
    pub command: Seq<char>,
    pub description: Seq<char>,
    pub example_description: Seq<char>,
    pub example_command: Seq<char>,
    pub embed_input: Seq<char>,
}

impl DeepView for PendingExample {
    type V = PendingExampleV;

    open spec fn deep_view(&self) -> PendingExampleV {
        PendingExampleV {
            command: self.command@,
            description: self.description@,
            example_description: self.example_description@,
            example_command: self.example_command@,
            embed_input: self.embed_input@,
        }
    }
}

/// The composite text fed to the embedder for one example.  The order
/// biases the embedding toward command identity, and the same template
/// must be used when the corpus is built and when it is queried.
pub open spec fn embed_input_spec(
    ex_desc: Seq<char>,
    cmd: Seq<char>,
    desc: Seq<char>,
    ex_cmd: Seq<char>,
) -> Seq<char> {
    "Task: "@ + ex_desc + ". Command: "@ + cmd + ". Description: "@ + desc + ". Example: "@
        + ex_desc + " "@ + ex_cmd
}

/// The rows one document contributes: one per valid example pair, all
/// sharing the document's command name and description.
pub open spec fn rows_of_doc(d: DocumentV) -> Seq<PendingExampleV> {
    examples_of(d.text).map(
        |i: int, e: ExamplePairV|
            PendingExampleV {
                command: d.name,
                description: description_of(d.text),
                example_description: e.description,
                example_command: e.command_line,
                embed_input: embed_input_spec(
                    e.description,
                    d.name,
                    description_of(d.text),
                    e.command_line,
                ),
            },
    )
}

/// The rows a whole corpus plans, in document order.
pub open spec fn ingestion_plan(docs: Seq<DocumentV>) -> Seq<PendingExampleV>
    decreases docs.len(),
{
    if docs.len() == 0 {
        Seq::empty()
    } else {
        ingestion_plan(docs.drop_last()) + rows_of_doc(docs.last())
    }
}

/// Total number of valid example pairs across a corpus.
pub open spec fn total_examples(docs: Seq<DocumentV>) -> int
    decreases docs.len(),
{
    if docs.len() == 0 {
        0
    } else {
        total_examples(docs.drop_last()) + examples_of(docs.last().text).len()
    }
}

/// Law: a corpus with M total valid example pairs plans exactly M rows —
/// one stored row per example, not per document.
pub proof fn lemma_plan_count(docs: Seq<DocumentV>)
    ensures
        ingestion_plan(docs).len() == total_examples(docs),
    decreases docs.len(),
{
    if docs.len() > 0 {
        lemma_plan_count(docs.drop_last());
    }
}

/// Build the composite embedding input for one example.
pub fn embedding_input(ex_desc: &str, cmd: &str, desc: &str, ex_cmd: &str) -> (r: String)
    ensures
        r@ == embed_input_spec(ex_desc@, cmd@, desc@, ex_cmd@),
{
    let mut r = String::new();
    r.append("Task: ");
    r.append(ex_desc);
    r.append(". Command: ");
    r.append(cmd);
    r.append(". Description: ");
    r.append(desc);
    r.append(". Example: ");
    r.append(ex_desc);
    r.append(" ");
    r.append(ex_cmd);
    r
}

/// Parse a corpus and plan its rows: every valid example pair of every
/// document yields exactly one pending row, in document order.
pub fn plan_ingestion(docs: &Vec<Document>) -> (r: Vec<PendingExample>)
    ensures
        r.deep_view() == ingestion_plan(docs.deep_view()),
        r.deep_view().len() == total_examples(docs.deep_view()),
{
    let ghost dv = docs.deep_view();
    let n = docs.len();
    let mut out: Vec<PendingExample> = Vec::new();
    proof {
        assert(dv.take(0) =~= Seq::<DocumentV>::empty());
        assert(out.deep_view() =~= Seq::<PendingExampleV>::empty());
    }
    let mut di: usize = 0;
    while di < n
        invariant
            n == docs@.len(),
            dv == docs.deep_view(),
            di <= n,
            out.deep_view() == ingestion_plan(dv.take(di as int)),
        decreases n - di,
    {
        let d = &docs[di];
        let rec = parse_tldr(d.text.as_str(), d.name.as_str());
        let ghost rows = rows_of_doc(dv[di as int]);
        proof {
            assert(rec.examples.deep_view() == examples_of(dv[di as int].text));
            assert(rows.len() == rec.examples.deep_view().len());
        }
        let m = rec.examples.len();
        let ghost base = out.deep_view();
        proof {
            assert(base + rows.take(0) =~= base);
        }
        let mut j: usize = 0;
        while j < m
            invariant
                m == rec.examples@.len(),
                j <= m,
                rows == rows_of_doc(dv[di as int]),
                rec.examples.deep_view() == examples_of(dv[di as int].text),
                rec.name@ == dv[di as int].name,
                rec.description@ == description_of(dv[di as int].text),
                rows.len() == m,
                out.deep_view() == base + rows.take(j as int),
            decreases m - j,
        {
            let e = &rec.examples[j];
            let input = embedding_input(
                e.description.as_str(),
                rec.name.as_str(),
                rec.description.as_str(),
                e.command_line.as_str(),
            );
            let ghost before = out.deep_view();
            out.push(
                PendingExample {
                    command: rec.name.clone(),
                    description: rec.description.clone(),
                    example_description: e.description.clone(),
                    example_command: e.command_line.clone(),
                    embed_input: input,
                },
            );
            proof {
                assert(rows[j as int] == PendingExampleV {
                    command: dv[di as int].name,
                    description: description_of(dv[di as int].text),
                    example_description: rec.examples.deep_view()[j as int].description,
                    example_command: rec.examples.deep_view()[j as int].command_line,
                    embed_input: embed_input_spec(
                        rec.examples.deep_view()[j as int].description,
                        dv[di as int].name,
                        description_of(dv[di as int].text),
                        rec.examples.deep_view()[j as int].command_line,
                    ),
                });
                assert(out.deep_view() =~= before.push(rows[j as int]));
                assert(base + rows.take(j + 1) =~= before.push(rows[j as int]));
            }
            j = j + 1;
        }
        proof {
            assert(rows.take(m as int) =~= rows);
            assert(dv.take(di + 1).drop_last() =~= dv.take(di as int));
            assert(dv.take(di + 1).last() == dv[di as int]);
            assert(out.deep_view() == ingestion_plan(dv.take(di + 1)));
        }
        di = di + 1;
    }
    proof {
        assert(dv.take(n as int) =~= dv);
        lemma_plan_count(dv);
    }
    out
}

/// Why an ingestion step fails.
#[derive(Clone, Copy, Debug, PartialEq, Eq, Structural)]
pub enum IngestError {
    /// The embedding's byte length is not four bytes per dimension.
    DimensionMismatch,
}

/// The stored unit of the corpus: the four text fields and the embedding,
/// serialized as four bytes per dimension.
#[derive(Debug, Clone, PartialEq, Eq)]
pub struct EmbeddedExample {
    pub command: String,
    pub description: String,
    pub example_description: String,
    pub example_command: String,
    pub embedding: Vec<u8>,
}

impl EmbeddedExample {
    /// The embedding holds exactly four bytes per dimension.
    pub open spec fn wf(&self) -> bool {
        self.embedding@.len() == EMBEDDING_BYTES as int
    }
}

/// Law: every well-formed stored row's embedding byte length is four times
/// the embedding dimensionality.
pub proof fn lemma_embedding_dimensionality(e: &EmbeddedExample)
    requires
        e.wf(),
    ensures
        e.embedding@.len() == 4 * EMBEDDING_DIM,
{
}

/// Attach the embedding the provider returned to a planned row.  Succeeds
/// exactly when the byte length is four bytes per dimension; the row's
/// text fields are carried over unchanged.
pub fn attach_embedding(row: PendingExample, embedding: Vec<u8>) -> (r: Result<
    EmbeddedExample,
    IngestError,
>)
    ensures
        r is Ok <==> embedding@.len() == EMBEDDING_BYTES as int,
        r is Ok ==> (r->Ok_0).wf() && r->Ok_0 == (EmbeddedExample {
            command: row.command,
            description: row.description,
            example_description: row.example_description,
            example_command: row.example_command,
            embedding: embedding,
        }),
        r is Err ==> r->Err_0 == IngestError::DimensionMismatch,
{
    if embedding.len() == EMBEDDING_BYTES {
        Ok(
            EmbeddedExample {
                command: row.command,
                description: row.description,
                example_description: row.example_description,
                example_command: row.example_command,
                embedding,
            },
        )
    } else {
        Err(IngestError::DimensionMismatch)
    }
}

} // verus!
