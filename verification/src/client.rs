//! The service protocol: reply types, the meaning of reply status codes,
//! how replies become results, request queries and paging.

use vstd::prelude::*;
use crate::model::{
    Folder, FolderCreateResponse, GeoMatch, ImageMatch, ListOfFolders, ListOfModels,
    MetadataItemView, Model, ModelMatch, ModelMetadata, ModelMetadataItem, Property,
};
use crate::text::{concat3, decimal_text, join_texts, joined, u64_to_string, uuid_text, uuid_to_string};

verus! {

/// Errors of service calls.
#[derive(Debug, Clone)]
pub enum ClientError {
    Parsing(String),
    Unauthorized,
    Forbidden,
    NotFound,
    FailedToDeleteFolder(String),
    Unsupported(String),
    ServerError(String),
    BadRequest,
    Conflict(String),
    InvalidInputFile,
    InputOutputError(String),
    HttpError(String),
    JsonError(String),
    InputNotFile,
    CannotExtractFileNameFromPath,
    FileTooLarge,
    FailedToFindMatchesForImage,
}

/// The success codes: 200 to 205.
pub open spec fn accepted_status(code: u16) -> bool {
    200 <= code <= 205
}

/// The error codes mapped to their own error.
pub open spec fn specific_status(code: u16) -> bool {
    code == 400 || code == 401 || code == 403 || code == 404 || code == 409
}

/// The other codes the client knows by name, reported with their number.
pub open spec fn reported_status(code: u16) -> bool {
    code == 100 || code == 101 || code == 102 || code == 206 || code == 207 || code == 208
        || code == 226 || code == 300 || code == 301 || code == 302 || code == 303 || code == 304
        || code == 305 || code == 307 || code == 308 || code == 402 || code == 405 || code == 406
        || code == 407 || code == 408 || code == 410 || code == 411 || code == 412 || code == 413
        || code == 414 || code == 415 || code == 416 || code == 417 || code == 418 || code == 421
        || code == 422 || code == 423 || code == 424 || code == 426 || code == 428 || code == 429
        || code == 431 || code == 451 || code == 500 || code == 501 || code == 502 || code == 503
        || code == 504 || code == 505 || code == 506 || code == 507 || code == 508 || code == 510
        || code == 511
}

/// What a reply status means: success, a specific error, or an unsupported
/// status described by text.
pub open spec fn status_result_ok(code: u16, r: Result<(), ClientError>) -> bool {
    if accepted_status(code) {
        r is Ok
    } else if code == 403 {
        r matches Err(ClientError::Forbidden)
    } else if code == 404 {
        r matches Err(ClientError::NotFound)
    } else if code == 401 {
        r matches Err(ClientError::Unauthorized)
    } else if code == 400 {
        r matches Err(ClientError::BadRequest)
    } else if code == 409 {
        r matches Err(ClientError::Conflict(m)) && m@ == "Resource already exists on the server"@
    } else if reported_status(code) {
        r matches Err(ClientError::Unsupported(m)) && m@ == "Server responded with error status: "@
            + decimal_text(code as nat)
    } else {
        r matches Err(ClientError::Unsupported(m)) && m@ == "Unexpected query status code"@
    }
}

/// A reply succeeds exactly when its status is 200 to 205; 400, 401, 403,
/// 404 and 409 fail with their own errors, and every other status fails as
/// unsupported.
pub proof fn lemma_status_meaning(code: u16, r: Result<(), ClientError>)
    requires
        status_result_ok(code, r),
    ensures
        r is Ok <==> 200 <= code <= 205,
        code == 400 ==> r matches Err(ClientError::BadRequest),
        code == 401 ==> r matches Err(ClientError::Unauthorized),
        code == 403 ==> r matches Err(ClientError::Forbidden),
        code == 404 ==> r matches Err(ClientError::NotFound),
        code == 409 ==> r matches Err(ClientError::Conflict(_)),
        !(200 <= code <= 205 || code == 400 || code == 401 || code == 403 || code == 404 || code == 409)
            ==> r matches Err(ClientError::Unsupported(_)),
{
}

/// Decides from a reply's status code whether the call succeeded.
pub fn evaluate_response(status: u16) -> (r: Result<(), ClientError>)
    ensures
        status_result_ok(status, r),
{
    match status {
        200 | 201 | 202 | 203 | 204 | 205 => Ok(()),
        403 => Err(ClientError::Forbidden),
        404 => Err(ClientError::NotFound),
        401 => Err(ClientError::Unauthorized),
        400 => Err(ClientError::BadRequest),
        409 => Err(ClientError::Conflict(String::from_str("Resource already exists on the server"))),
        100 | 101 | 102 | 206 | 207 | 208 | 226 | 300 | 301 | 302 | 303 | 304 | 305 | 307 | 308
        | 402 | 405 | 406 | 407 | 408 | 410 | 411 | 412 | 413 | 414 | 415 | 416 | 417 | 418 | 421
        | 422 | 423 | 424 | 426 | 428 | 429 | 431 | 451 | 500 | 501 | 502 | 503 | 504 | 505 | 506
        | 507 | 508 | 510 | 511 => {
            let number = u64_to_string(status as u64);
            let message = String::from_str("Server responded with error status: ").concat(
                number.as_str(),
            );
            Err(ClientError::Unsupported(message))
        },
        _ => Err(ClientError::Unsupported(String::from_str("Unexpected query status code"))),
    }
}

/// A reply as the transport delivers it: a failed exchange with its error
/// text, or a status code with the body text or the error met reading it.
pub enum Reply {
    Failed(String),
    Received { status: u16, body: Result<String, String> },
}

/// What the service sends back in the body of a failed call.
#[derive(Debug, Clone)]
pub struct ServerErrorDetails {
    pub message: String,
}

#[derive(Debug, Clone)]
pub struct ServerError {
    pub error_details: ServerErrorDetails,
}

/// Turns a reply into the body of a successful call or an error. For a
/// failed call whose body reads as a server error description,
/// `server_message` holds that description's message.
pub fn handle_response(reply: Reply, server_message: Option<String>) -> (r: Result<String, ClientError>)
    ensures
        match reply {
            Reply::Failed(e) => r matches Err(ClientError::ServerError(m)) && m@ == e@,
            Reply::Received { status, body } => {
                if accepted_status(status) {
                    match body {
                        Ok(text) => r matches Ok(t) && t@ == text@,
                        Err(e) => r matches Err(ClientError::ServerError(m)) && m@ == e@,
                    }
                } else {
                    match (body, server_message) {
                        (Ok(_), Some(message)) => r matches Err(ClientError::ServerError(m)) && m@
                            == message@,
                        _ => r is Err && status_result_ok(status, Err(r->Err_0)),
                    }
                }
            },
        },
{
    match reply {
        Reply::Failed(e) => Err(ClientError::ServerError(e)),
        Reply::Received { status, body } => match evaluate_response(status) {
            Ok(()) => match body {
                Ok(text) => Ok(text),
                Err(e) => Err(ClientError::ServerError(e)),
            },
            Err(e) => match (body, server_message) {
                (Ok(_), Some(message)) => Err(ClientError::ServerError(message)),
                _ => Err(e),
            },
        },
    }
}

/// Paging information of a reply.
#[derive(Clone, Debug, Default)]
pub struct PageData {
    pub total: u32,
    pub per_page: u32,
    pub current_page: u32,
    pub last_page: u32,
    pub start_index: u32,
    pub end_index: u32,
}

/// The page to read after this one, if there is one.
pub fn next_page(page_data: &PageData) -> (next: Option<u32>)
    ensures
        next == (if page_data.current_page < page_data.last_page {
            Some((page_data.current_page + 1) as u32)
        } else {
            None
        }),
{
    if page_data.current_page < page_data.last_page {
        Some(page_data.current_page + 1)
    } else {
        None
    }
}


/// A query parameter: name and value.
pub type QueryParameter = (String, String);

/// A query parameter built from a literal name and a value.
pub fn parameter(name: &str, value: String) -> (p: QueryParameter)
    ensures
        p.0@ == name@,
        p.1@ == value@,
{
    (String::from_str(name), value)
}

/// Each name in single quotes.
pub open spec fn quoted(names: Seq<Seq<char>>) -> Seq<Seq<char>> {
    Seq::new(names.len(), |i: int| "'"@ + names[i] + "'"@)
}

/// The folder filter of a folder listing: `name(in('a','b'))` for the
/// wanted names, or the empty filter when every folder is wanted.
pub open spec fn folder_filter_text(desired: Option<Seq<Seq<char>>>) -> Seq<char> {
    match desired {
        Some(names) => "name(in("@ + joined(quoted(names), ","@) + "))"@,
        None => Seq::empty(),
    }
}

/// Builds the folder filter of a folder listing.
pub fn folder_filter(desired: &Option<Vec<String>>) -> (filter: String)
    ensures
        filter@ == folder_filter_text(desired.deep_view()),
{
    match desired {
        Some(names) => {
            let mut parts: Vec<String> = Vec::new();
            let mut i: usize = 0;
            while i < names.len()
                invariant
                    i <= names.len(),
                    parts.deep_view() =~= quoted(names.deep_view()).take(i as int),
                decreases names.len() - i,
            {
                let ghost before = parts.deep_view();
                let part = concat3("'", names[i].as_str(), "'");
                parts.push(part);
                proof {
                    assert(parts.deep_view() =~= before.push(part@));
                }
                i += 1;
            }
            assert(quoted(names.deep_view()).take(names.len() as int) =~= quoted(names.deep_view()));
            let list = join_texts(&parts, ",");
            concat3("name(in(", list.as_str(), "))")
        },
        None => String::new(),
    }
}

/// The query of one page of a folder listing.
pub fn folders_page_query(page: u32, per_page: u32, filter: String) -> (q: Vec<QueryParameter>)
    ensures
        q.deep_view() == seq![
            ("page"@, decimal_text(page as nat)),
            ("perPage"@, decimal_text(per_page as nat)),
            ("filter"@, filter@),
        ],
{
    let mut q: Vec<QueryParameter> = Vec::new();
    q.push(parameter("page", u64_to_string(page as u64)));
    q.push(parameter("perPage", u64_to_string(per_page as u64)));
    q.push(parameter("filter", filter));
    assert(q.deep_view() =~= seq![
        ("page"@, decimal_text(page as nat)),
        ("perPage"@, decimal_text(per_page as nat)),
        ("filter"@, filter@),
    ]);
    q
}

/// The decimal texts of folder ids.
pub open spec fn id_texts(ids: Seq<u32>) -> Seq<Seq<char>> {
    Seq::new(ids.len(), |i: int| decimal_text(ids[i] as nat))
}

/// The query of one page of a model listing: a folder filter when folders
/// are given, the search text when there is one, then the paging.
pub open spec fn models_page_query_spec(
    folders: Seq<u32>,
    search: Option<Seq<char>>,
    per_page: u32,
    page: u32,
) -> Seq<(Seq<char>, Seq<char>)> {
    (if folders.len() > 0 {
        seq![("filter"@, "folderId(in("@ + joined(id_texts(folders), ","@) + "))"@)]
    } else {
        Seq::empty()
    }) + (match search {
        Some(s) => seq![("search"@, s)],
        None => Seq::empty(),
    }) + seq![("perPage"@, decimal_text(per_page as nat)), ("page"@, decimal_text(page as nat))]
}

/// Builds the query of one page of a model listing.
pub fn models_page_query(folders: &Vec<u32>, search: Option<&String>, per_page: u32, page: u32) -> (q:
    Vec<QueryParameter>)
    ensures
        q.deep_view() == models_page_query_spec(
            folders@,
            match search {
                Some(s) => Some(s@),
                None => None,
            },
            per_page,
            page,
        ),
{
    let mut q: Vec<QueryParameter> = Vec::new();
    let ghost search_view: Option<Seq<char>> = match search {
        Some(s) => Some(s@),
        None => None,
    };
    if folders.len() > 0 {
        let mut texts: Vec<String> = Vec::new();
        let mut i: usize = 0;
        while i < folders.len()
            invariant
                i <= folders.len(),
                texts.deep_view() =~= id_texts(folders@).take(i as int),
            decreases folders.len() - i,
        {
            let ghost before = texts.deep_view();
            let t = u64_to_string(folders[i] as u64);
            texts.push(t);
            proof {
                assert(texts.deep_view() =~= before.push(t@));
            }
            i += 1;
        }
        assert(id_texts(folders@).take(folders.len() as int) =~= id_texts(folders@));
        let list = join_texts(&texts, ",");
        q.push(parameter("filter", concat3("folderId(in(", list.as_str(), "))")));
    }
    match search {
        Some(s) => q.push(parameter("search", s.clone())),
        None => {},
    }
    q.push(parameter("perPage", u64_to_string(per_page as u64)));
    q.push(parameter("page", u64_to_string(page as u64)));
    assert(q.deep_view() =~= models_page_query_spec(folders@, search_view, per_page, page));
    q
}

/// The query of one page of an image search: the upload id, the paging,
/// then the search text and the filter when given.
pub open spec fn image_search_query_spec(
    id: Seq<char>,
    search: Option<Seq<char>>,
    filter: Option<Seq<char>>,
    page: u32,
    per_page: u32,
) -> Seq<(Seq<char>, Seq<char>)> {
    seq![
        ("id"@, id),
        ("perPage"@, decimal_text(per_page as nat)),
        ("page"@, decimal_text(page as nat)),
    ] + (match search {
        Some(s) => seq![("search"@, s)],
        None => Seq::empty(),
    }) + (match filter {
        Some(f) => seq![("filter"@, f)],
        None => Seq::empty(),
    })
}

/// The names of a query's parameters.
pub open spec fn has_parameter(q: Seq<(Seq<char>, Seq<char>)>, name: Seq<char>) -> bool {
    exists|j: int| 0 <= j < q.len() && (#[trigger] q[j]).0 == name
}

/// An image search sends the upload id and the paging, sends the search
/// text exactly when one is given and the filter exactly when one is
/// given, each with its value, and nothing else.
pub proof fn lemma_image_search_query_sends_what_is_given(
    id: Seq<char>,
    search: Option<Seq<char>>,
    filter: Option<Seq<char>>,
    page: u32,
    per_page: u32,
)
    ensures
        ({
            let q = image_search_query_spec(id, search, filter, page, per_page);
            &&& q.contains(("id"@, id))
            &&& q.contains(("perPage"@, decimal_text(per_page as nat)))
            &&& q.contains(("page"@, decimal_text(page as nat)))
            &&& (search matches Some(s) ==> q.contains(("search"@, s)))
            &&& (filter matches Some(f) ==> q.contains(("filter"@, f)))
            &&& (has_parameter(q, "search"@) <==> search is Some)
            &&& (has_parameter(q, "filter"@) <==> filter is Some)
            &&& q.len() == 3 + (if search is Some { 1int } else { 0int }) + (if filter is Some { 1int } else { 0int })
        }),
{
    reveal_strlit("id");
    reveal_strlit("perPage");
    reveal_strlit("page");
    reveal_strlit("search");
    reveal_strlit("filter");
    let q = image_search_query_spec(id, search, filter, page, per_page);
    let base = seq![
        ("id"@, id),
        ("perPage"@, decimal_text(per_page as nat)),
        ("page"@, decimal_text(page as nat)),
    ];
    let sq: Seq<(Seq<char>, Seq<char>)> = match search {
        Some(s) => seq![("search"@, s)],
        None => Seq::empty(),
    };
    let fq: Seq<(Seq<char>, Seq<char>)> = match filter {
        Some(f) => seq![("filter"@, f)],
        None => Seq::empty(),
    };
    assert(q == base + sq + fq);
    assert(q[0] == ("id"@, id));
    assert(q[1] == ("perPage"@, decimal_text(per_page as nat)));
    assert(q[2] == ("page"@, decimal_text(page as nat)));
    assert("search"@ != "filter"@) by {
        assert("search"@[0] != "filter"@[0]);
    }
    if search is Some {
        assert(q[3] == sq[0]);
    }
    if filter is Some {
        assert(q[q.len() - 1] == fq[0]);
    }
    if has_parameter(q, "search"@) {
        let j = choose|j: int| 0 <= j < q.len() && (#[trigger] q[j]).0 == "search"@;
        if search is None {
            assert(q =~= base + fq);
            if j >= 3 {
                assert(q[j] == fq[j - 3]);
            } else {
                assert(base[j] == q[j]);
                assert("id"@.len() == 2 && "perPage"@.len() == 7 && "page"@.len() == 4 && "search"@.len() == 6);
                assert(j == 0 || j == 1 || j == 2);
            }
        }
    }
    if has_parameter(q, "filter"@) {
        let j = choose|j: int| 0 <= j < q.len() && (#[trigger] q[j]).0 == "filter"@;
        if filter is None {
            assert(q =~= base + sq);
            if j >= 3 {
                assert(q[j] == sq[j - 3]);
            } else {
                assert(base[j] == q[j]);
                assert("id"@.len() == 2 && "perPage"@.len() == 7 && "page"@.len() == 4 && "filter"@.len() == 6);
                assert(j == 0 || j == 1 || j == 2);
            }
        }
    }
    assert(q.contains(("id"@, id)));
    assert(q.contains(("perPage"@, decimal_text(per_page as nat))));
    assert(q.contains(("page"@, decimal_text(page as nat))));
    assert(search matches Some(s) ==> q.contains(("search"@, s)));
    assert(filter matches Some(f) ==> q.contains(("filter"@, f)));
    assert(has_parameter(q, "search"@) <==> search is Some);
    assert(has_parameter(q, "filter"@) <==> filter is Some);
}

/// A model listing sends the folder filter exactly when folders are given,
/// naming each of them, the search text exactly when one is given, and
/// the paging.
pub proof fn lemma_models_page_query_sends_what_is_given(
    folders: Seq<u32>,
    search: Option<Seq<char>>,
    per_page: u32,
    page: u32,
)
    ensures
        ({
            let q = models_page_query_spec(folders, search, per_page, page);
            &&& q.contains(("perPage"@, decimal_text(per_page as nat)))
            &&& q.contains(("page"@, decimal_text(page as nat)))
            &&& (search matches Some(s) ==> q.contains(("search"@, s)))
            &&& (has_parameter(q, "search"@) <==> search is Some)
            &&& (has_parameter(q, "filter"@) <==> folders.len() > 0)
            &&& (folders.len() > 0 ==> q.contains(
                ("filter"@, "folderId(in("@ + joined(id_texts(folders), ","@) + "))"@),
            ))
            &&& q.len() == 2 + (if search is Some { 1int } else { 0int }) + (if folders.len() > 0 { 1int } else { 0int })
        }),
{
    reveal_strlit("perPage");
    reveal_strlit("page");
    reveal_strlit("search");
    reveal_strlit("filter");
    let q = models_page_query_spec(folders, search, per_page, page);
    let ff = "folderId(in("@ + joined(id_texts(folders), ","@) + "))"@;
    let fq: Seq<(Seq<char>, Seq<char>)> = if folders.len() > 0 {
        seq![("filter"@, ff)]
    } else {
        Seq::empty()
    };
    let sq: Seq<(Seq<char>, Seq<char>)> = match search {
        Some(s) => seq![("search"@, s)],
        None => Seq::empty(),
    };
    let tail = seq![("perPage"@, decimal_text(per_page as nat)), ("page"@, decimal_text(page as nat))];
    assert(q == fq + sq + tail);
    let n = q.len();
    assert(q[n - 2] == tail[0]);
    assert(q[n - 1] == tail[1]);
    assert("search"@ != "filter"@) by {
        assert("search"@[0] != "filter"@[0]);
    }
    if folders.len() > 0 {
        assert(q[0] == fq[0]);
    }
    if search is Some {
        assert(q[fq.len() as int] == sq[0]);
    }
    if has_parameter(q, "search"@) {
        let j = choose|j: int| 0 <= j < q.len() && (#[trigger] q[j]).0 == "search"@;
        if search is None {
            assert(q =~= fq + tail);
            assert("perPage"@.len() == 7 && "page"@.len() == 4 && "search"@.len() == 6);
            if j < fq.len() {
                assert(q[j] == fq[j]);
            } else {
                assert(q[j] == tail[j - fq.len()]);
                assert(j - fq.len() == 0 || j - fq.len() == 1);
            }
        }
    }
    if has_parameter(q, "filter"@) {
        let j = choose|j: int| 0 <= j < q.len() && (#[trigger] q[j]).0 == "filter"@;
        if folders.len() == 0 {
            assert(q =~= sq + tail);
            assert("perPage"@.len() == 7 && "page"@.len() == 4 && "filter"@.len() == 6);
            if j < sq.len() {
                assert(q[j] == sq[j]);
            } else {
                assert(q[j] == tail[j - sq.len()]);
                assert(j - sq.len() == 0 || j - sq.len() == 1);
            }
        }
    }
    assert(q.contains(("perPage"@, decimal_text(per_page as nat))));
    assert(q.contains(("page"@, decimal_text(page as nat))));
    assert(search matches Some(s) ==> q.contains(("search"@, s)));
    assert(has_parameter(q, "search"@) <==> search is Some);
    assert(has_parameter(q, "filter"@) <==> folders.len() > 0);
    assert(folders.len() > 0 ==> q.contains(("filter"@, ff)));
}

/// Builds the query of one page of an image search.
pub fn image_search_query(
    id: String,
    search: Option<&String>,
    filter: Option<&String>,
    page: u32,
    per_page: u32,
) -> (q: Vec<QueryParameter>)
    ensures
        q.deep_view() == image_search_query_spec(
            id@,
            match search {
                Some(s) => Some(s@),
                None => None,
            },
            match filter {
                Some(f) => Some(f@),
                None => None,
            },
            page,
            per_page,
        ),
{
    let ghost id_view = id@;
    let ghost search_view: Option<Seq<char>> = match search {
        Some(s) => Some(s@),
        None => None,
    };
    let ghost filter_view: Option<Seq<char>> = match filter {
        Some(f) => Some(f@),
        None => None,
    };
    let mut q: Vec<QueryParameter> = Vec::new();
    q.push(parameter("id", id));
    q.push(parameter("perPage", u64_to_string(per_page as u64)));
    q.push(parameter("page", u64_to_string(page as u64)));
    match search {
        Some(s) => q.push(parameter("search", s.clone())),
        None => {},
    }
    match filter {
        Some(f) => q.push(parameter("filter", f.clone())),
        None => {},
    }
    assert(q.deep_view() =~= image_search_query_spec(
        id_view,
        search_view,
        filter_view,
        page,
        per_page,
    ));
    q
}

/// A part-to-part match as the service reports it. `match_percentage`
/// holds the IEEE-754 bit pattern of the score.
#[derive(Clone, Debug, Default)]
pub struct PartToPartMatch {
    pub matched_model: Model,
    pub match_percentage: u64,
}

/// A folder filter by id or by name.
#[derive(Clone, Debug)]
pub struct FolderFilterData {
    pub id: Option<u32>,
    pub name: Option<String>,
}

impl FolderFilterData {
    /// A filter that names no folder.
    pub fn default() -> (f: FolderFilterData)
        ensures
            f.id is None,
            f.name is None,
    {
        FolderFilterData { id: None, name: None }
    }
}

/// A property filter: a property and the values it may take.
#[derive(Clone, Debug, Default)]
pub struct PropertyFilterData {
    pub id: u32,
    pub name: String,
    pub values: Vec<String>,
}

/// A filter on folders and properties.
#[derive(Clone, Debug)]
pub struct FilterData {
    pub folders: Option<Vec<FolderFilterData>>,
    pub properties: Option<Vec<PropertyFilterData>>,
}

/// One page of part-to-part matches.
#[derive(Clone, Debug, Default)]
pub struct PartToPartMatchResponse {
    pub matches: Vec<PartToPartMatch>,
    pub page_data: PageData,
}

/// A folder as the service describes it.
#[derive(Clone, Debug, Default)]
pub struct ClientFolder {
    pub id: u32,
    pub created_at: String,
    pub owner_id: Option<String>,
    pub name: String,
}

/// One page of a folder listing.
#[derive(Clone, Debug, Default)]
pub struct FolderListPageResponse {
    pub folders: Vec<ClientFolder>,
    pub page_data: Box<PageData>,
}

/// A complete folder listing.
#[derive(Clone, Debug, Default)]
pub struct FolderListResponse {
    pub folders: Vec<ClientFolder>,
}

impl FolderListResponse {
    /// The folders of one page.
    pub fn from_page(page_response: FolderListPageResponse) -> (r: FolderListResponse)
        ensures
            r.folders == page_response.folders,
    {
        FolderListResponse { folders: page_response.folders }
    }
}

/// The page of a folder listing to read after this one, if any.
pub fn next_folder_page(current_page: u32, last_page: u32) -> (next: Option<u32>)
    ensures
        next == (if current_page >= last_page {
            None
        } else {
            Some((current_page + 1) as u32)
        }),
{
    if current_page >= last_page {
        None
    } else {
        Some(current_page + 1)
    }
}

/// The reply to reading one model.
#[derive(Clone, Debug, Default)]
pub struct SingleModelResponse {
    pub model: Box<Model>,
}

/// The reply to reading a model's metadata.
#[derive(Clone, Debug, Default)]
pub struct ModelMetadataResponse {
    pub metadata: Vec<ModelMetadataItem>,
}

/// The kind of a node of an assembly tree.
#[derive(Clone, Copy, Debug, PartialEq, Eq)]
pub enum Type {
    AssemblyTree,
    AssemblyPart,
    SubAssembly,
}

impl Type {
    pub fn default() -> (t: Type)
        ensures
            t == Type::AssemblyTree,
    {
        Type::AssemblyTree
    }
}

/// An assembly tree as the service reports it: node kinds and model ids.
#[derive(Debug)]
pub struct AssemblyTree {
    pub _type: Type,
    pub uuid: String,
    pub children: Option<Vec<AssemblyTree>>,
}

/// One page of a model listing.
#[derive(Clone, Debug, Default)]
pub struct ModelListResponse {
    pub models: Vec<Model>,
    pub page_data: Box<PageData>,
}

/// The body of a request registering a property name.
#[derive(Clone, Debug, Default)]
pub struct PropertyRequest {
    pub name: String,
}

impl PropertyRequest {
    pub fn new(name: String) -> (r: PropertyRequest)
        ensures
            r.name == name,
    {
        PropertyRequest { name }
    }
}

/// The body of a request setting a property value.
#[derive(Clone, Debug, Default)]
pub struct PropertyValueRequest {
    pub value: String,
}

impl PropertyValueRequest {
    pub fn new(value: String) -> (r: PropertyValueRequest)
        ensures
            r.value == value,
    {
        PropertyValueRequest { value }
    }
}

/// The reply to registering a property name.
#[derive(Clone, Debug, Default)]
pub struct PropertyResponse {
    pub property: Property,
}

/// A selection of models by folder ids.
#[derive(Clone, Debug, Default)]
pub struct ModelFilter {
    pub container_ids: Vec<u32>,
}

impl ModelFilter {
    pub fn new(folders: Vec<u32>) -> (f: ModelFilter)
        ensures
            f.container_ids == folders,
    {
        ModelFilter { container_ids: folders }
    }
}

/// A request to create an image classifier over some folders.
#[derive(Clone, Debug)]
pub struct ImageClassifierCreateRequest {
    pub name: String,
    pub filter: ModelFilter,
}

impl ImageClassifierCreateRequest {
    pub fn new(name: String, folders: Vec<u32>) -> (r: ImageClassifierCreateRequest)
        ensures
            r.name == name,
            r.filter.container_ids == folders,
    {
        let filter = ModelFilter::new(folders);
        ImageClassifierCreateRequest { name, filter }
    }
}

/// The reply to creating an image classifier.
#[derive(Clone, Debug)]
pub struct ImageClassifierCreateResponse {
    pub id: u128,
    pub name: String,
    pub status: String,
    pub model_filter: ModelFilter,
}

/// One page of classifier predictions.
#[derive(Clone, Debug, Default)]
pub struct GeoMatchPageResponse {
    pub matches: Vec<GeoMatch>,
    pub page_data: PageData,
}

/// A request for upload instructions of an image file.
#[derive(Clone, Debug)]
pub struct ImageUploadSpecsRequest {
    pub filename: String,
}

impl ImageUploadSpecsRequest {
    pub fn new(filename: String) -> (r: ImageUploadSpecsRequest)
        ensures
            r.filename == filename,
    {
        ImageUploadSpecsRequest { filename }
    }
}

/// Size limits of an image upload.
#[derive(Clone, Debug)]
pub struct ImageUploadSizeRequirements {
    pub min_size_in_bytes: u64,
    pub max_size_in_bytes: u64,
}

/// Headers an image upload must carry.
#[derive(Clone, Debug)]
pub struct ImageUploadHeaders {
    pub content_type: String,
    pub content_length_range: String,
}

/// Where and how to upload an image.
#[derive(Clone, Debug)]
pub struct ImageUploadResponse {
    pub id: String,
    pub upload_url: String,
    pub headers: ImageUploadHeaders,
    pub file_size_requirements: ImageUploadSizeRequirements,
}

/// The reply to a request for image upload instructions.
#[derive(Clone, Debug)]
pub struct ImageUploadSpecsResponse {
    pub image: ImageUploadResponse,
}

/// One page of image search results.
#[derive(Clone, Debug, Default)]
pub struct ImageMatchPageResponse {
    pub matches: Vec<ImageMatch>,
    pub page_data: PageData,
}

/// One model of an upload request: its path in the service and its name.
#[derive(Clone, Debug)]
pub struct ModelUploadRequestModelElement {
    pub file_path: String,
    pub name: String,
}

impl ModelUploadRequestModelElement {
    /// The element for a file name uploaded into a folder: the path is the
    /// folder and the name joined by `/`.
    pub fn new(folder: &str, name: &str) -> (e: ModelUploadRequestModelElement)
        ensures
            e.file_path@ == folder@ + "/"@ + name@,
            e.name@ == name@,
    {
        ModelUploadRequestModelElement {
            file_path: concat3(folder, "/", name),
            name: String::from_str(name),
        }
    }
}

/// A request to upload models.
#[derive(Clone, Debug)]
pub struct ModelUploadRequest {
    pub models: Vec<ModelUploadRequestModelElement>,
}

impl ModelUploadRequest {
    /// A request for a single file.
    pub fn new(folder: &str, name: &str) -> (r: ModelUploadRequest)
        ensures
            r.models@.len() == 1,
            r.models@[0].file_path@ == folder@ + "/"@ + name@,
            r.models@[0].name@ == name@,
    {
        let element = ModelUploadRequestModelElement::new(folder, name);
        let mut models = Vec::new();
        models.push(element);
        ModelUploadRequest { models }
    }
}

/// The model of a metadata reply: `None` when there is no reply or it holds
/// no property, otherwise all of its properties in order.
pub fn metadata_from_response(response: Option<ModelMetadataResponse>) -> (meta: Option<ModelMetadata>)
    ensures
        match response {
            Some(r) => if r.metadata@.len() == 0 {
                meta is None
            } else {
                meta matches Some(m) && m.properties.deep_view() == r.metadata.deep_view()
            },
            None => meta is None,
        },
{
    match response {
        Some(response) => {
            if response.metadata.len() > 0 {
                Some(ModelMetadata::new(response.metadata))
            } else {
                None
            }
        },
        None => None,
    }
}

impl Folder {
    /// The library's folder for a folder of a reply.
    pub fn from_client_folder(folder: ClientFolder) -> (f: Folder)
        ensures
            f.id == folder.id,
            f.name == folder.name,
    {
        Folder { id: folder.id, name: folder.name }
    }

    /// The folder a creation reply describes.
    pub fn from_create_response(response: FolderCreateResponse) -> (f: Folder)
        ensures
            f.id == response.folder.id,
            f.name == response.folder.name,
    {
        Folder { id: response.folder.id, name: response.folder.name }
    }
}

impl ListOfFolders {
    /// The folders of a complete listing, in order.
    pub fn from_response(response: &FolderListResponse) -> (list: ListOfFolders)
        ensures
            list.folders@.len() == response.folders@.len(),
            forall|i: int| 0 <= i < list.folders@.len() ==> (#[trigger] list.folders@[i]).id
                == response.folders@[i].id && list.folders@[i].name@ == response.folders@[i].name@,
    {
        let mut folders: Vec<Folder> = Vec::new();
        let mut i: usize = 0;
        while i < response.folders.len()
            invariant
                i <= response.folders@.len(),
                folders@.len() == i,
                forall|k: int| 0 <= k < i ==> (#[trigger] folders@[k]).id == response.folders@[k].id
                    && folders@[k].name@ == response.folders@[k].name@,
            decreases response.folders.len() - i,
        {
            let f = &response.folders[i];
            folders.push(Folder { id: f.id, name: f.name.clone() });
            i += 1;
        }
        ListOfFolders { folders }
    }
}

impl Model {
    /// The model of a single-model reply, with no folder name and no
    /// metadata.
    pub fn from_single_response(response: SingleModelResponse) -> (m: Model)
        ensures
            m.uuid == response.model.uuid,
            m.is_assembly == response.model.is_assembly,
            m.name == response.model.name,
            m.folder_id == response.model.folder_id,
            m.folder_name is None,
            m.file_type == response.model.file_type,
            m.thumbnail == response.model.thumbnail,
            m.owner_id == response.model.owner_id,
            m.created_at == response.model.created_at,
            m.units == response.model.units,
            m.state == response.model.state,
            m.short_id == response.model.short_id,
            m.attachment_url == response.model.attachment_url,
            m.metadata is None,
    {
        let model = *response.model;
        Model {
            uuid: model.uuid,
            is_assembly: model.is_assembly,
            name: model.name,
            folder_id: model.folder_id,
            folder_name: None,
            file_type: model.file_type,
            thumbnail: model.thumbnail,
            owner_id: model.owner_id,
            created_at: model.created_at,
            units: model.units,
            state: model.state,
            short_id: model.short_id,
            attachment_url: model.attachment_url,
            metadata: None,
        }
    }
}

impl ModelMatch {
    /// The match a part-to-part match describes: its model without folder
    /// name and metadata, its score, and no comparison link.
    pub fn from_part_match(m: PartToPartMatch) -> (r: ModelMatch)
        ensures
            r.model.uuid == m.matched_model.uuid,
            r.model.name == m.matched_model.name,
            r.model.folder_id == m.matched_model.folder_id,
            r.model.is_assembly == m.matched_model.is_assembly,
            r.model.folder_name is None,
            r.model.metadata is None,
            r.percentage == m.match_percentage,
            r.comparison_url is None,
    {
        let model = Model::from_single_response(SingleModelResponse { model: Box::new(m.matched_model) });
        ModelMatch::new(model, m.match_percentage, None)
    }
}

#[verifier::external_type_specification]
#[verifier::external_body]
pub struct ExHeaderName(http::HeaderName);

/// A character that may stand in an HTTP header name: a visible ASCII
/// character other than the separators `( ) , / : ; < = > ? @ [ \ ] { }`.
pub open spec fn header_name_char(c: char) -> bool {
    &&& 33 <= (c as u32) <= 126
    &&& !(c == '(' || c == ')' || c == ',' || c == '/' || c == ':' || c == ';' || c == '<'
        || c == '=' || c == '>' || c == '?' || c == '@' || c == '[' || c == '\\' || c == ']'
        || c == '{' || c == '}')
}

/// Whether a text is a valid HTTP header name: between one and 65535
/// characters, each one that may stand in a header name.
pub open spec fn header_name_accepts(name: Seq<char>) -> bool {
    &&& 0 < name.len() <= 65535
    &&& forall|i: int| 0 <= i < name.len() ==> header_name_char(#[trigger] name[i])
}

/// `http::HeaderName`'s `FromStr`: parsing succeeds exactly when the text
/// is not empty, has at most 65535 bytes, and each byte is one that the
/// crate's table of header-name characters admits; those bytes are the
/// characters of `header_name_char`, so a text with any other character,
/// non-ASCII ones included, is refused.
#[verifier::external_body]
fn parse_header_name(name: &str) -> (r: Option<http::HeaderName>)
    ensures
        r is Some <==> header_name_accepts(name@),
{
    name.parse::<http::HeaderName>().ok()
}

/// The name of a header that an upload reply asks for.
pub struct CustomHeaderName(pub String);

impl CustomHeaderName {
    pub fn new(name: String) -> (h: CustomHeaderName)
        ensures
            h.0@ == name@,
    {
        CustomHeaderName(name)
    }

    /// The header name, when the text is a valid one.
    pub fn into_header_name(&self) -> (r: Option<http::HeaderName>)
        ensures
            r is Some <==> header_name_accepts(self.0@),
    {
        parse_header_name(self.0.as_str())
    }

    /// The text of the name.
    pub fn to_string(&self) -> (s: String)
        ensures
            s@ == self.0@,
    {
        self.0.clone()
    }
}

} // verus!
