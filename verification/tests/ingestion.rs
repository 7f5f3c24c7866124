use askman::ingest::{
    attach_embedding, embedding_input, plan_ingestion, Document, IngestError, EMBEDDING_BYTES,
    EMBEDDING_DIM,
};
use askman::rank::{rank, QueryMatch};

fn doc(name: &str, text: &str) -> Document {
    Document { name: name.to_string(), text: text.to_string() }
}

#[test]
fn one_row_per_valid_example_pair() {
    let docs = vec![
        doc("ls", "> Lists files.\n\n- List all:\n`ls -a`\n- Long listing:\n`ls -l`\n"),
        doc("cp", "> Copies files.\n\n- Copy a file:\n`cp src dst`\n"),
        doc("true", "> Does nothing.\n"),
    ];
    let rows = plan_ingestion(&docs);
    assert_eq!(rows.len(), 3);
    assert_eq!(rows[0].command, "ls");
    assert_eq!(rows[0].example_description, "List all:");
    assert_eq!(rows[1].command, "ls");
    assert_eq!(rows[1].example_description, "Long listing:");
    assert_eq!(rows[2].command, "cp");
    assert_eq!(rows[2].example_command, "cp src dst");
}

#[test]
fn composite_embedding_input_follows_the_template() {
    let input = embedding_input("List all", "ls", "Lists files", "ls -a");
    assert_eq!(
        input,
        "Task: List all. Command: ls. Description: Lists files. Example: List all ls -a"
    );
}

#[test]
fn planned_rows_carry_the_composite_input() {
    let docs = vec![doc("ls", "> Lists files.\n- List all:\n`ls -a`\n")];
    let rows = plan_ingestion(&docs);
    assert_eq!(rows.len(), 1);
    assert_eq!(
        rows[0].embed_input,
        "Task: List all:. Command: ls. Description: Lists files.. Example: List all: ls -a"
    );
}

#[test]
fn embedding_byte_length_must_be_four_per_dimension() {
    assert_eq!(EMBEDDING_BYTES, 4 * EMBEDDING_DIM);
    let docs = vec![doc("ls", "> d\n- a:\n`c`\n")];
    let rows = plan_ingestion(&docs);
    let row = rows.into_iter().next().unwrap();
    let stored = attach_embedding(row.clone(), vec![0u8; EMBEDDING_BYTES]).unwrap();
    assert_eq!(stored.embedding.len(), 1536);
    assert_eq!(stored.command, "ls");
    assert_eq!(stored.example_command, "c");
    let bad = attach_embedding(row, vec![0u8; 100]);
    assert_eq!(bad.unwrap_err(), IngestError::DimensionMismatch);
}

#[test]
fn end_to_end_trusted_tar_wins() {
    // Corpus: "tar" documented by a trusted source, a competitor that is
    // otherwise equal but community-sourced.
    let docs = vec![
        doc(
            "tar",
            "> Archiving utility. More information: <https://man7.org/linux/man-pages/man1/tar.1.html>.\n\n- Create an archive:\n`tar -cf a.tar dir`\n",
        ),
        doc(
            "ztar",
            "> Archiving utility. Community documented.\n\n- Create an archive:\n`ztar -cf a.tar dir`\n",
        ),
    ];
    let rows = plan_ingestion(&docs);
    assert_eq!(rows.len(), 2);

    // The store would hand both rows back with equal similarity for
    // "how do I create a tar archive".
    let matches: Vec<QueryMatch> = rows
        .iter()
        .map(|r| QueryMatch {
            command: r.command.clone(),
            description: r.description.clone(),
            example_description: r.example_description.clone(),
            example_command: r.example_command.clone(),
            score: 750_000,
        })
        .collect();
    let answers = rank(&matches);
    assert_eq!(answers.len(), 2);
    assert_eq!(answers[0].command, "tar");
    assert_eq!(answers[0].examples.len(), 1);
    assert_eq!(answers[0].examples[0].description, "Create an archive:");
    assert_eq!(answers[0].examples[0].command_line, "tar -cf a.tar dir");
    // The winner's score reflects the trusted-source boost over the
    // otherwise-equal competitor.
    assert_eq!(answers[0].score, 900_000);
    assert_eq!(answers[1].command, "ztar");
    assert_eq!(answers[1].score, 750_000);
    assert!(answers[0].score > answers[1].score);
}

#[test]
fn empty_corpus_plans_no_rows() {
    let rows = plan_ingestion(&Vec::new());
    assert!(rows.is_empty());
}
