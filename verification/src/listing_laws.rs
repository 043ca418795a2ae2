//! What a listing of a bucket gives, whatever the pages are.
use vstd::prelude::*;

use crate::error::AppError;
use crate::storage_operations;
use crate::storage_operations::ListObjects;
use crate::storage_request::HttpMethod;
use crate::storage_request::Listing;
use crate::storage_request::Step;
use crate::storage_request::StorageRequest;
use crate::storage_url;
use crate::text;
use crate::url_laws;

verus! {

/// A listing from its start: each page but the last names the next one, and each
/// step follows from the page before.
pub open spec fn is_run(
    start: ListObjects,
    steps: Seq<Step<ListObjects, Vec<String>>>,
    pages: Seq<Result<Listing, AppError>>,
) -> bool {
    &&& steps.len() == pages.len() + 1
    &&& steps[0] matches Step::Send(listing, _) && listing == start
    &&& forall|i: int|
        0 <= i < pages.len() ==> (#[trigger] steps[i] matches Step::Send(listing, _)
            && listing.continues(pages[i], steps[i + 1]))
}

/// The names of all pages, page after page.
pub open spec fn names_of(pages: Seq<Result<Listing, AppError>>) -> Seq<Seq<char>>
    decreases pages.len(),
{
    if pages.len() == 0 {
        Seq::empty()
    } else {
        names_of(pages.drop_last()) + (pages.last()->Ok_0).names@.map_values(|name: String| name@)
    }
}

/// The URIs of the names in a bucket, in order, but for that of the bucket's lock.
pub open spec fn uris_of(bucket: Seq<char>, names: Seq<Seq<char>>) -> Seq<Seq<char>> {
    names.filter(|name: Seq<char>| name != ".task-googlecloud-lock"@).map_values(
        |name: Seq<char>| "gs://"@ + bucket + "/"@ + name,
    )
}

/// A listing that ends well gives the URI of every name of every page, in the order
/// of the pages and of the names on them, but for the bucket's lock, and nothing
/// else, however many pages there are.
pub proof fn a_listing_gives_every_object_of_every_page(
    start: ListObjects,
    steps: Seq<Step<ListObjects, Vec<String>>>,
    pages: Seq<Result<Listing, AppError>>,
)
    requires
        is_run(start, steps, pages),
        start.objects@.len() == 0,
        steps.last() matches Step::Done(result) && result is Ok,
    ensures
        forall|i: int| 0 <= i < pages.len() ==> (#[trigger] pages[i]) is Ok,
        (steps.last()->Done_0->Ok_0)@.map_values(|object: String| object@) == uris_of(
            start.bucket@,
            names_of(pages),
        ),
{
    let last = pages.len() - 1;
    assert(steps[last] is Send);
    found_so_far(start, steps, pages, last);
    let listing = steps[last]->Send_0;
    assert(pages[last] is Ok);
    assert forall|i: int| 0 <= i < pages.len() implies (#[trigger] pages[i]) is Ok by {
        if i < last {
            assert(pages.take(last)[i] == pages[i]);
        }
    }
    let page = pages[last]->Ok_0;
    grows_by_a_page(start.bucket@, names_of(pages.take(last)), text::views(page.names@));
    assert(pages.drop_last() =~= pages.take(last));
}

proof fn grows_by_a_page(bucket: Seq<char>, earlier: Seq<Seq<char>>, names: Seq<Seq<char>>)
    ensures
        uris_of(bucket, earlier + names) == uris_of(bucket, earlier) + storage_operations::listed(
            bucket,
            names,
        ),
    decreases names.len(),
{
    let keep = |name: Seq<char>| name != ".task-googlecloud-lock"@;
    let written = |name: Seq<char>| "gs://"@ + bucket + "/"@ + name;
    if names.len() == 0 {
        assert(earlier + names =~= earlier);
        assert(uris_of(bucket, earlier) + storage_operations::listed(bucket, names) =~= uris_of(
            bucket,
            earlier,
        ));
    } else {
        grows_by_a_page(bucket, earlier, names.drop_last());
        let whole = earlier + names;
        assert(whole.drop_last() =~= earlier + names.drop_last());
        assert(whole.last() == names.last());
        reveal(Seq::filter);
        let shorter = whole.drop_last().filter(keep);
        let before = uris_of(bucket, earlier);
        let listed = storage_operations::listed(bucket, names.drop_last());
        assert(shorter.map_values(written) == before + listed);
        if keep(whole.last()) {
            assert(whole.filter(keep) == shorter.push(whole.last()));
            assert(uris_of(bucket, whole) =~= shorter.map_values(written).push(
                written(whole.last()),
            ));
            assert((before + listed).push(written(whole.last())) =~= before + listed.push(
                written(whole.last()),
            ));
        } else {
            assert(whole.filter(keep) == shorter);
        }
    }
}

proof fn found_so_far(
    start: ListObjects,
    steps: Seq<Step<ListObjects, Vec<String>>>,
    pages: Seq<Result<Listing, AppError>>,
    at: int,
)
    requires
        is_run(start, steps, pages),
        start.objects@.len() == 0,
        0 <= at < steps.len(),
        steps[at] is Send,
    ensures
        (steps[at]->Send_0).bucket == start.bucket,
        (steps[at]->Send_0).api_base == start.api_base,
        forall|i: int| 0 <= i < at ==> (#[trigger] pages.take(at)[i]) is Ok,
        text::views((steps[at]->Send_0).objects@) == uris_of(
            start.bucket@,
            names_of(pages.take(at)),
        ),
    decreases at,
{
    if at == 0 {
        assert(pages.take(0) =~= Seq::empty());
        reveal(Seq::filter);
        assert(text::views(start.objects@) =~= uris_of(start.bucket@, names_of(pages.take(0))));
    } else {
        assert(steps[at - 1] is Send);
        found_so_far(start, steps, pages, at - 1);
        let page = pages[at - 1]->Ok_0;
        assert(pages.take(at).drop_last() =~= pages.take(at - 1));
        assert(pages.take(at).last() == pages[at - 1]);
        grows_by_a_page(start.bucket@, names_of(pages.take(at - 1)), text::views(page.names@));
        assert forall|i: int| 0 <= i < at implies (#[trigger] pages.take(at)[i]) is Ok by {
            if i < at - 1 {
                assert(pages.take(at - 1)[i] is Ok);
            }
        }
    }
}

/// A listing goes on while a page names a next one, and ends with the page that names
/// none. The first page that fails ends it with the failure.
pub proof fn a_listing_ends_with_its_last_page(
    start: ListObjects,
    steps: Seq<Step<ListObjects, Vec<String>>>,
    pages: Seq<Result<Listing, AppError>>,
    at: int,
)
    requires
        is_run(start, steps, pages),
        0 <= at < pages.len(),
    ensures
        match pages[at] {
            Err(error) => steps[at + 1] == Step::<ListObjects, Vec<String>>::Done(Err(error)),
            Ok(page) => match page.next_page_token {
                Some(_) => steps[at + 1] is Send,
                None => steps[at + 1] matches Step::Done(result) && result is Ok,
            },
        },
{
    assert(steps[at] is Send);
}

/// The request asks for a page of at most a thousand objects of the bucket: the first
/// one, or the one that a token names.
pub open spec fn asks_for_page(
    request: StorageRequest,
    api_base: Seq<char>,
    bucket: Seq<char>,
    token: Option<Seq<char>>,
) -> bool {
    &&& request.method == HttpMethod::Get
    &&& request.body is Empty
    &&& exists|plain: Seq<char>|
        {
            &&& #[trigger] url_laws::says_bucket(plain, api_base, bucket)
            &&& url_laws::with_pairs(
                request.url@,
                plain,
                match token {
                    Some(token) => seq![("maxResults"@, "1000"@), ("pageToken"@, token)],
                    None => seq![("maxResults"@, "1000"@)],
                },
            )
        }
}

/// A request for a page reads as such.
pub proof fn a_page_request_asks_for_the_page(
    request: StorageRequest,
    api_base: Seq<char>,
    bucket: Seq<char>,
    token: Option<Seq<char>>,
)
    requires
        storage_operations::requests_page(request, api_base, bucket, token),
    ensures
        asks_for_page(request, api_base, bucket, token),
{
    let plain = storage_url::collection(api_base, bucket);
    let pairs = match token {
        Some(token) => seq![("maxResults"@, "1000"@), ("pageToken"@, token)],
        None => seq![("maxResults"@, "1000"@)],
    };
    url_laws::a_bucket_url_reads_as_the_bucket(api_base, bucket);
    url_laws::a_query_reads_as_its_pairs(plain, pairs);
    assert(pairs.map_values(|pair: (Seq<char>, Seq<char>)| storage_url::pair(pair.0, pair.1))
        =~= seq![storage_url::pair("maxResults"@, "1000"@)] + match token {
        Some(token) => seq![storage_url::pair("pageToken"@, token)],
        None => Seq::empty(),
    });
}

/// Each page after the first is asked for with the token that the page before it
/// gave.
pub proof fn every_page_is_asked_for_by_its_token(
    start: ListObjects,
    steps: Seq<Step<ListObjects, Vec<String>>>,
    pages: Seq<Result<Listing, AppError>>,
    at: int,
)
    requires
        is_run(start, steps, pages),
        start.objects@.len() == 0,
        0 < at < steps.len(),
        steps[at] is Send,
    ensures
        pages[at - 1] matches Ok(page) && (page.next_page_token matches Some(token)
            && asks_for_page(steps[at]->Send_1, start.api_base@, start.bucket@, Some(token@))),
{
    assert(steps[at - 1] is Send);
    found_so_far(start, steps, pages, at - 1);
    let page = pages[at - 1]->Ok_0;
    let token = page.next_page_token->0;
    a_page_request_asks_for_the_page(
        steps[at]->Send_1,
        start.api_base@,
        start.bucket@,
        Some(token@),
    );
}


/// What was found stays found: every step of a listing holds, in the same order, all that
/// any step before it held, and so does the result.
pub proof fn a_listing_only_ever_grows(
    start: ListObjects,
    steps: Seq<Step<ListObjects, Vec<String>>>,
    pages: Seq<Result<Listing, AppError>>,
    early: int,
    late: int,
)
    requires
        is_run(start, steps, pages),
        0 <= early < late < steps.len(),
    ensures
        match steps[late] {
            Step::Send(listing, _) => (steps[early]->Send_0).objects@.map_values(
                |object: String| object@,
            ).is_prefix_of(listing.objects@.map_values(|object: String| object@)),
            Step::Done(Ok(objects)) => (steps[early]->Send_0).objects@.map_values(
                |object: String| object@,
            ).is_prefix_of(objects@.map_values(|object: String| object@)),
            Step::Done(Err(_)) => true,
        },
    decreases late,
{
    assert(steps[late - 1] is Send);
    let before = (steps[late - 1]->Send_0).objects@;
    let first = (steps[early]->Send_0).objects@;
    assert(text::views(before) =~= before.map_values(|object: String| object@));
    assert(text::views(first) =~= first.map_values(|object: String| object@));
    if early < late - 1 {
        a_listing_only_ever_grows(start, steps, pages, early, late - 1);
    }
}

} // verus!
