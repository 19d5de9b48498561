//! Turns what a source emits into requests to the index writer.

use vstd::prelude::*;

use crate::index_service::Mutation;
use crate::model::Document;

verus! {

/// What a source emits.
#[derive(Clone, Debug, PartialEq, Eq)]
pub enum SourceMutation {
    Upsert(Document),
    UpsertMany(Vec<Document>),
    Delete { doc_id: String },
    DeleteSourceInstance { instance_id: String },
}

/// The request that an emission makes of the index writer; an empty list
/// makes none.
pub fn emit(mutation: SourceMutation) -> (r: Option<Mutation>)
    ensures
        match mutation {
            SourceMutation::Upsert(doc) => r matches Some(Mutation::UpsertMany(docs)) && docs@
                == seq![doc],
            SourceMutation::UpsertMany(docs) => r == (if docs@.len() == 0 {
                None
            } else {
                Some(Mutation::UpsertMany(docs))
            }),
            SourceMutation::Delete { doc_id } => r matches Some(Mutation::DeleteMany(ids)) && ids@
                == seq![doc_id],
            SourceMutation::DeleteSourceInstance { instance_id } => r == Some(
                (Mutation::DeleteSourceInstance { instance_id }),
            ),
        },
{
    match mutation {
        SourceMutation::Upsert(doc) => {
            let mut docs: Vec<Document> = Vec::new();
            docs.push(doc);
            proof {
                assert(docs@ =~= seq![doc]);
            }
            Some(Mutation::UpsertMany(docs))
        },
        SourceMutation::UpsertMany(docs) => {
            if docs.len() == 0 {
                None
            } else {
                Some(Mutation::UpsertMany(docs))
            }
        },
        SourceMutation::Delete { doc_id } => {
            let mut ids: Vec<String> = Vec::new();
            ids.push(doc_id);
            proof {
                assert(ids@ =~= seq![doc_id]);
            }
            Some(Mutation::DeleteMany(ids))
        },
        SourceMutation::DeleteSourceInstance { instance_id } => Some(
            Mutation::DeleteSourceInstance { instance_id },
        ),
    }
}

/// The request that puts a recognised text into a document.
pub fn upsert_body(doc_id: &str, body: &str) -> (r: Mutation)
    ensures
        r matches Mutation::UpsertBody { doc_id: id, body: text, expected_mtime } && id@ == doc_id@
            && text@ == body@ && expected_mtime is None,
{
    Mutation::UpsertBody {
        doc_id: doc_id.to_string(),
        body: body.to_string(),
        expected_mtime: None,
    }
}

} // verus!
