//! Copying an object within Cloud Storage.
use vstd::prelude::*;

use crate::error::AppError;
use crate::object_path::ObjectPath;
use crate::storage_request::HttpMethod;
use crate::storage_request::ReplyKind;
use crate::storage_request::RequestBody;
use crate::storage_request::Rewrite;
use crate::storage_request::Step;
use crate::storage_request::StorageRequest;
use crate::storage_url;
use crate::text;

verus! {

/// A copy that is waiting for the reply to its latest rewrite request. Cloud
/// Storage may answer with a token in place of the finished copy; the rewrite
/// then goes on with that token.
#[derive(Debug)]
pub struct CopyObject {
    pub api_base: String,
    pub source: ObjectPath,
    pub target: ObjectPath,
    /// The only generation of the source that may be copied.
    pub source_generation: Option<String>,
    /// The only generation of the target that may be replaced, "0" for none.
    pub destination_generation: Option<String>,
    /// Whether an earlier request of this copy was answered.
    pub request_sent: bool,
}

/// The pairs of a rewrite request: its preconditions, then its token.
pub open spec fn rewrite_pairs(
    source_generation: Option<Seq<char>>,
    destination_generation: Option<Seq<char>>,
    rewrite_token: Option<Seq<char>>,
) -> Seq<Seq<char>> {
    (match source_generation {
        Some(generation) => seq![
            storage_url::pair("sourceGeneration"@, generation),
            storage_url::pair("ifSourceGenerationMatch"@, generation),
        ],
        None => Seq::empty(),
    }) + (match destination_generation {
        Some(generation) => seq![storage_url::pair("ifGenerationMatch"@, generation)],
        None => Seq::empty(),
    }) + (match rewrite_token {
        Some(token) => seq![storage_url::pair("rewriteToken"@, token)],
        None => Seq::empty(),
    })
}

/// The content of an optional string.
pub open spec fn optional(text: Option<String>) -> Option<Seq<char>> {
    match text {
        Some(text) => Some(text@),
        None => None,
    }
}

impl CopyObject {
    /// The rewrite request, from the start or from a token on. It always
    /// carries the preconditions of the copy.
    pub open spec fn requests(self, request: StorageRequest, rewrite_token: Option<Seq<char>>) -> bool {
        let base = storage_url::rewrite(self.api_base@, self.source@, self.target@);
        let pairs = rewrite_pairs(
            optional(self.source_generation),
            optional(self.destination_generation),
            rewrite_token,
        );
        request.is_plain(
            HttpMethod::Post,
            if pairs.len() == 0 {
                base
            } else {
                storage_url::queried(base, pairs)
            },
            ReplyKind::Rewrite,
        )
    }

    fn request(&self, rewrite_token: Option<&str>) -> (request: StorageRequest)
        ensures
            self.requests(
                request,
                match rewrite_token {
                    Some(token) => Some(token@),
                    None => None,
                },
            ),
    {
        let mut pairs: Vec<String> = Vec::new();
        if let Some(generation) = &self.source_generation {
            pairs.push(storage_url::query_pair("sourceGeneration", generation.as_str()));
            pairs.push(storage_url::query_pair("ifSourceGenerationMatch", generation.as_str()));
        }
        if let Some(generation) = &self.destination_generation {
            pairs.push(storage_url::query_pair("ifGenerationMatch", generation.as_str()));
        }
        if let Some(token) = rewrite_token {
            pairs.push(storage_url::query_pair("rewriteToken", token));
        }
        assert(text::views(pairs@) =~= rewrite_pairs(
            optional(self.source_generation),
            optional(self.destination_generation),
            match rewrite_token {
                Some(token) => Some(token@),
                None => None,
            },
        ));
        let base = storage_url::rewrite_url(self.api_base.as_str(), &self.source, &self.target);
        let url = if pairs.len() == 0 {
            base
        } else {
            storage_url::with_query(base, &pairs)
        };
        StorageRequest {
            method: HttpMethod::Post,
            url,
            body: RequestBody::Empty,
            reply: ReplyKind::Rewrite,
        }
    }

    /// Begins a copy; nothing was sent yet.
    pub fn start(
        api_base: String,
        source: ObjectPath,
        target: ObjectPath,
        source_generation: Option<String>,
        destination_generation: Option<String>,
    ) -> (started: (Self, StorageRequest))
        ensures
            started.0 == (CopyObject {
                api_base,
                source,
                target,
                source_generation,
                destination_generation,
                request_sent: false,
            }),
            started.0.requests(started.1, None),
    {
        let copy = CopyObject {
            api_base,
            source,
            target,
            source_generation,
            destination_generation,
            request_sent: false,
        };
        let request = copy.request(None);
        (copy, request)
    }

    /// What a copy does on a reply: it ends with the generation of the finished
    /// copy, goes on with the token of an unfinished one, and fails on anything
    /// else.
    pub open spec fn continues(self, reply: Result<Rewrite, AppError>, step: Step<CopyObject, String>) -> bool {
        match reply {
            Err(error) => step == Step::<CopyObject, String>::Done(
                Err(
                    if self.request_sent {
                        error.after_request()
                    } else {
                        error
                    },
                ),
            ),
            Ok(rewrite) => if rewrite.done {
                match rewrite.generation {
                    Some(generation) => step == Step::<CopyObject, String>::Done(Ok(generation)),
                    None => fails_with(step, "Cloud Storage rewrite omitted its resource"@),
                }
            } else {
                match rewrite.rewrite_token {
                    Some(token) => {
                        &&& step matches Step::Send(copy, request)
                        &&& copy == (CopyObject { request_sent: true, ..self })
                        &&& copy.requests(request, Some(token@))
                    },
                    None => fails_with(
                        step,
                        "Cloud Storage rewrite omitted its continuation token"@,
                    ),
                }
            },
        }
    }

    /// Continues a copy with the reply to its latest request.
    pub fn resume(self, reply: Result<Rewrite, AppError>) -> (step: Step<CopyObject, String>)
        ensures
            self.continues(reply, step),
    {
        match reply {
            Err(error) => Step::Done(
                Err(
                    if self.request_sent {
                        error.mark_reached_storage()
                    } else {
                        error
                    },
                ),
            ),
            Ok(rewrite) => if rewrite.done {
                match rewrite.generation {
                    Some(generation) => Step::Done(Ok(generation)),
                    None => Step::Done(
                        Err(
                            AppError::StorageResponse(
                                "Cloud Storage rewrite omitted its resource".to_string(),
                            ),
                        ),
                    ),
                }
            } else {
                match rewrite.rewrite_token {
                    Some(token) => {
                        let request = self.request(Some(token.as_str()));
                        Step::Send(CopyObject { request_sent: true, ..self }, request)
                    },
                    None => Step::Done(
                        Err(
                            AppError::StorageResponse(
                                "Cloud Storage rewrite omitted its continuation token".to_string(),
                            ),
                        ),
                    ),
                }
            },
        }
    }
}

/// The copy ends because the reply cannot be used.
pub open spec fn fails_with(step: Step<CopyObject, String>, problem: Seq<char>) -> bool {
    step matches Step::Done(Err(AppError::StorageResponse(message))) && message@ == problem
}

} // verus!
