//! The remote document sync client: what a pull or push request looks
//! like, what a fetched document means, and how a successful first push
//! attaches the server-assigned document id to the configuration. The
//! HTTP calls themselves live outside; everything decided here is a pure
//! function of credential, configuration and response values.

use vstd::prelude::*;

use crate::{Package, PackageView, views};
use crate::codec::{ser_string, ser_packages, spec_parse_packages, serialize_packages,
    parse_packages};
use crate::strutil::{push_str_chars, str_to_chars, chars_to_string, str_eq};

verus! {

/// Why a sync operation cannot proceed or has failed.
#[derive(Clone, Copy, Debug, PartialEq, Eq, Structural)]
pub enum SyncError {
    /// No credential is present where one is required.
    NotAuthenticated,
    /// A credential is present but no remote document id is set.
    NotConfigured,
    /// A non-success response or a malformed response body.
    RemoteError,
    /// The device flow ended with the operator denying access.
    AuthDenied,
    /// The device flow ended with the session expired.
    AuthExpired,
    /// The device flow ended with any other terminal error.
    AuthFailed,
    /// A backup or credential file could not be read, written or parsed.
    LocalIOError,
    /// One package-manager invocation failed; the batch continues.
    PackageManagerError,
}

impl SyncError {
    /// A short description of the error.
    pub fn message(&self) -> (r: String)
        ensures
            *self is NotAuthenticated ==> r@ == "not logged in"@,
            *self is NotConfigured ==> r@ == "remote document id not set"@,
            *self is RemoteError ==> r@ == "remote request failed"@,
            *self is AuthDenied ==> r@ == "access denied"@,
            *self is AuthExpired ==> r@ == "login session expired"@,
            *self is AuthFailed ==> r@ == "login failed"@,
            *self is LocalIOError ==> r@ == "local file error"@,
            *self is PackageManagerError ==> r@ == "package manager invocation failed"@,
    {
        match self {
            SyncError::NotAuthenticated => "not logged in".to_owned(),
            SyncError::NotConfigured => "remote document id not set".to_owned(),
            SyncError::RemoteError => "remote request failed".to_owned(),
            SyncError::AuthDenied => "access denied".to_owned(),
            SyncError::AuthExpired => "login session expired".to_owned(),
            SyncError::AuthFailed => "login failed".to_owned(),
            SyncError::LocalIOError => "local file error".to_owned(),
            SyncError::PackageManagerError => "package manager invocation failed".to_owned(),
        }
    }
}

/// The provider configuration: the remote document this installation
/// syncs with, once one exists.
#[derive(Debug, PartialEq, Eq, Clone)]
pub struct Config {
    pub gist_id: Option<String>,
}

/// The mathematical value of a `Config`.
pub ghost struct ConfigView {
    pub gist_id: Option<Seq<char>>,
}

impl View for Config {
    type V = ConfigView;

    open spec fn view(&self) -> ConfigView {
        ConfigView {
            gist_id: match self.gist_id {
                Some(ref id) => Some(id@),
                None => None,
            },
        }
    }
}

impl Default for Config {
    /// A fresh configuration has no remote document yet.
    fn default() -> (r: Self)
        ensures
            r@.gist_id is None,
    {
        Config { gist_id: None }
    }
}

impl Config {
    /// The provider's name, used for the configuration file.
    pub fn get_name() -> (r: String)
        ensures
            r@ == "github"@,
    {
        "github".to_owned()
    }

    /// This configuration with the remote document id set to `id`.
    pub fn set_id(&self, id: String) -> (r: Config)
        ensures
            r@.gist_id == Some(id@),
    {
        Config { gist_id: Some(id) }
    }
}

/// One file of a remote document.
#[derive(Debug, Clone)]
pub struct File {
    pub filename: String,
    pub raw_url: Option<String>,
    pub content: Option<String>,
}

/// The mathematical value of a `File`.
pub ghost struct FileView {
    pub filename: Seq<char>,
    pub raw_url: Option<Seq<char>>,
    pub content: Option<Seq<char>>,
}

impl View for File {
    type V = FileView;

    open spec fn view(&self) -> FileView {
        FileView {
            filename: self.filename@,
            raw_url: match self.raw_url {
                Some(ref u) => Some(u@),
                None => None,
            },
            content: match self.content {
                Some(ref c) => Some(c@),
                None => None,
            },
        }
    }
}

/// The views of a sequence of files.
pub open spec fn file_views(s: Seq<File>) -> Seq<FileView> {
    s.map_values(|f: File| f@)
}

/// A remote document: its server-assigned id and its files.
pub struct Gist {
    pub id: String,
    pub files: Vec<File>,
    pub public: bool,
}

/// The mathematical value of a `Gist`.
pub ghost struct GistView {
    pub id: Seq<char>,
    pub files: Seq<FileView>,
    pub public: bool,
}

impl View for Gist {
    type V = GistView;

    open spec fn view(&self) -> GistView {
        GistView { id: self.id@, files: file_views(self.files@), public: self.public }
    }
}

/// The HTTP methods the sync client uses.
#[derive(Clone, Copy, Debug, PartialEq, Eq, Structural)]
pub enum Method {
    Get,
    Post,
    Patch,
}

/// A fully decided remote request: everything the transport needs.
#[derive(Debug, Clone)]
pub struct RemoteRequest {
    pub method: Method,
    pub url: String,
    pub auth_header: String,
    pub body: Option<String>,
}

/// The mathematical value of a `RemoteRequest`.
pub ghost struct RemoteRequestView {
    pub method: Method,
    pub url: Seq<char>,
    pub auth_header: Seq<char>,
    pub body: Option<Seq<char>>,
}

impl View for RemoteRequest {
    type V = RemoteRequestView;

    open spec fn view(&self) -> RemoteRequestView {
        RemoteRequestView {
            method: self.method,
            url: self.url@,
            auth_header: self.auth_header@,
            body: match self.body {
                Some(ref b) => Some(b@),
                None => None,
            },
        }
    }
}

/// The documents endpoint.
pub open spec fn gists_base() -> Seq<char> {
    "https://api.github.com/gists"@
}

/// The endpoint of one document.
pub open spec fn gist_url(id: Seq<char>) -> Seq<char> {
    "https://api.github.com/gists/"@ + id
}

/// The `Authorization` header value for a bearer credential.
pub open spec fn auth_header_value(auth: Seq<char>) -> Seq<char> {
    "token "@ + auth
}

/// The name of the file that holds the backup in the remote document.
pub open spec fn backup_filename() -> Seq<char> {
    "backup.json"@
}

/// The request body of a push: one private document holding the
/// serialized package set as its single `backup.json` file. The content
/// stands inside the body as a quoted, escaped string value.
pub open spec fn push_body(content: Seq<char>) -> Seq<char> {
    "{\"description\":\"Cargo package backup\",\"public\":false,\"files\":{\"backup.json\":{\"content\":"@
        + ser_string(content) + "}}}"@
}

/// What a pull request is, given the credential and the configuration:
/// refused without a credential, refused without a document id, else a
/// bare authenticated read of the configured document.
pub open spec fn spec_plan_pull(auth: Option<Seq<char>>, cfg: ConfigView) -> Result<
    RemoteRequestView,
    SyncError,
> {
    match auth {
        None => Err(SyncError::NotAuthenticated),
        Some(a) => match cfg.gist_id {
            None => Err(SyncError::NotConfigured),
            Some(id) => Ok(
                RemoteRequestView {
                    method: Method::Get,
                    url: gist_url(id),
                    auth_header: auth_header_value(a),
                    body: None,
                },
            ),
        },
    }
}

/// What a push request is: refused without a credential; with a document
/// id it patches that document in place, without one it creates a new
/// document; either way the body carries the serialized package set.
pub open spec fn spec_plan_push(
    auth: Option<Seq<char>>,
    cfg: ConfigView,
    ps: Seq<PackageView>,
) -> Result<RemoteRequestView, SyncError> {
    match auth {
        None => Err(SyncError::NotAuthenticated),
        Some(a) => Ok(
            RemoteRequestView {
                method: match cfg.gist_id {
                    Some(id) => Method::Patch,
                    None => Method::Post,
                },
                url: match cfg.gist_id {
                    Some(id) => gist_url(id),
                    None => gists_base(),
                },
                auth_header: auth_header_value(a),
                body: Some(push_body(ser_packages(ps))),
            },
        ),
    }
}

/// What follows a pull response's status: only a success's body is read
/// as the document; any other status is a remote error.
pub open spec fn spec_after_pull(status: u16) -> Result<(), SyncError> {
    if 200 <= status < 300 {
        Ok(())
    } else {
        Err(SyncError::RemoteError)
    }
}

/// Records the status of a pull response: a non-success response is a
/// remote error, exactly as for a push; only a success's body is read.
pub fn after_pull(status: u16) -> (r: Result<(), SyncError>)
    ensures
        r == spec_after_pull(status),
{
    if 200 <= status && status < 300 {
        Ok(())
    } else {
        Err(SyncError::RemoteError)
    }
}

/// What follows a push response: a non-success status is a remote error;
/// after a successful update the configuration stands; after a successful
/// create the server's new document id is attached to the configuration,
/// which must then be persisted (the boolean). A create response without
/// an id is malformed.
pub open spec fn spec_after_push(
    cfg: ConfigView,
    status: u16,
    new_id: Option<Seq<char>>,
) -> Result<(ConfigView, bool), SyncError> {
    if !(200 <= status < 300) {
        Err(SyncError::RemoteError)
    } else {
        match cfg.gist_id {
            Some(id) => Ok((cfg, false)),
            None => match new_id {
                Some(id) => Ok((ConfigView { gist_id: Some(id) }, true)),
                None => Err(SyncError::RemoteError),
            },
        }
    }
}

/// The first file at or after `pos` named `backup.json`, or the end.
pub open spec fn find_backup_file(files: Seq<FileView>, pos: int) -> int
    decreases files.len() - pos,
{
    if 0 <= pos < files.len() {
        if files[pos].filename == backup_filename() {
            pos
        } else {
            find_backup_file(files, pos + 1)
        }
    } else {
        files.len() as int
    }
}

/// `find_backup_file` yields the first backup file at or after `pos`.
pub proof fn lemma_find_backup_file(files: Seq<FileView>, pos: int)
    requires
        0 <= pos <= files.len(),
    ensures
        pos <= find_backup_file(files, pos) <= files.len(),
        find_backup_file(files, pos) < files.len() ==> files[find_backup_file(
            files,
            pos,
        )].filename == backup_filename(),
        forall|k: int|
            pos <= k < find_backup_file(files, pos) ==> (#[trigger] files[k]).filename
                != backup_filename(),
    decreases files.len() - pos,
{
    if pos < files.len() && files[pos].filename != backup_filename() {
        lemma_find_backup_file(files, pos + 1);
    }
}

/// What a fetched document means: the single file named `backup.json`
/// (the first, should several exist) must be present with content that
/// parses in the backup format; anything else is a malformed remote
/// document.
pub open spec fn spec_extract_backup(g: GistView) -> Result<Seq<PackageView>, SyncError> {
    let i = find_backup_file(g.files, 0);
    if i == g.files.len() {
        Err(SyncError::RemoteError)
    } else {
        match g.files[i].content {
            None => Err(SyncError::RemoteError),
            Some(c) => match spec_parse_packages(c) {
                None => Err(SyncError::RemoteError),
                Some(ps) => Ok(ps),
            },
        }
    }
}

/// Plans a pull: fails with `NotAuthenticated` without a credential and
/// with `NotConfigured` without a remote document id; otherwise the
/// authenticated read of the configured document.
pub fn plan_pull(auth: &Option<String>, config: &Config) -> (r: Result<RemoteRequest, SyncError>)
    ensures
        match r {
            Ok(req) => spec_plan_pull(opt_view(*auth), config@) == Ok::<
                RemoteRequestView,
                SyncError,
            >(req@),
            Err(e) => spec_plan_pull(opt_view(*auth), config@) == Err::<
                RemoteRequestView,
                SyncError,
            >(e),
        },
{
    let a = match auth {
        None => {
            return Err(SyncError::NotAuthenticated);
        },
        Some(a) => a,
    };
    let id = match &config.gist_id {
        None => {
            return Err(SyncError::NotConfigured);
        },
        Some(id) => id,
    };
    let req = RemoteRequest {
        method: Method::Get,
        url: make_gist_url(id.as_str()),
        auth_header: make_auth_header(a.as_str()),
        body: None,
    };
    Ok(req)
}

/// The view of an optional string.
pub open spec fn opt_view(o: Option<String>) -> Option<Seq<char>> {
    match o {
        Some(s) => Some(s@),
        None => None,
    }
}

/// The endpoint of the document named `id`.
pub fn make_gist_url(id: &str) -> (r: String)
    ensures
        r@ == gist_url(id@),
{
    let mut out = str_to_chars("https://api.github.com/gists/");
    push_str_chars(&mut out, id);
    chars_to_string(&out)
}

/// The `Authorization` header value carrying `auth`.
pub fn make_auth_header(auth: &str) -> (r: String)
    ensures
        r@ == auth_header_value(auth@),
{
    let mut out = str_to_chars("token ");
    push_str_chars(&mut out, auth);
    chars_to_string(&out)
}

/// Plans a push: fails with `NotAuthenticated` without a credential;
/// otherwise updates the configured document in place, or creates a new
/// one when no document id exists yet, carrying the serialized set.
pub fn plan_push(auth: &Option<String>, config: &Config, packages: &Vec<Package>) -> (r: Result<
    RemoteRequest,
    SyncError,
>)
    ensures
        match r {
            Ok(req) => spec_plan_push(opt_view(*auth), config@, views(packages@)) == Ok::<
                RemoteRequestView,
                SyncError,
            >(req@),
            Err(e) => spec_plan_push(opt_view(*auth), config@, views(packages@)) == Err::<
                RemoteRequestView,
                SyncError,
            >(e),
        },
{
    let a = match auth {
        None => {
            return Err(SyncError::NotAuthenticated);
        },
        Some(a) => a,
    };
    let content = serialize_packages(packages);
    let mut body = str_to_chars(
        "{\"description\":\"Cargo package backup\",\"public\":false,\"files\":{\"backup.json\":{\"content\":",
    );
    body.push('"');
    crate::codec::push_escaped(&mut body, content.as_str());
    body.push('"');
    push_str_chars(&mut body, "}}}");
    proof {
        assert(body@ =~= push_body(content@));
    }
    let (method, url) = match &config.gist_id {
        Some(id) => (Method::Patch, make_gist_url(id.as_str())),
        None => (Method::Post, "https://api.github.com/gists".to_owned()),
    };
    let req = RemoteRequest {
        method,
        url,
        auth_header: make_auth_header(a.as_str()),
        body: Some(chars_to_string(&body)),
    };
    Ok(req)
}

/// Records the outcome of a push: a non-success status is a remote
/// error; a successful first push attaches the server's document id to
/// the configuration and asks for it to be persisted.
pub fn after_push(config: &Config, status: u16, new_id: &Option<String>) -> (r: Result<
    (Config, bool),
    SyncError,
>)
    ensures
        match r {
            Ok(t) => spec_after_push(config@, status, opt_view(*new_id)) == Ok::<
                (ConfigView, bool),
                SyncError,
            >((t.0@, t.1)),
            Err(e) => spec_after_push(config@, status, opt_view(*new_id)) == Err::<
                (ConfigView, bool),
                SyncError,
            >(e),
        },
{
    if !(200 <= status && status < 300) {
        return Err(SyncError::RemoteError);
    }
    match &config.gist_id {
        Some(id) => Ok((Config { gist_id: Some(id.clone()) }, false)),
        None => match new_id {
            Some(id) => Ok((Config { gist_id: Some(id.clone()) }, true)),
            None => Err(SyncError::RemoteError),
        },
    }
}

/// Reads the backup out of a fetched document: the content of its first
/// file named `backup.json`, parsed in the backup format; a missing
/// file, missing content or malformed content is a remote error.
pub fn extract_backup(gist: &Gist) -> (r: Result<Vec<Package>, SyncError>)
    ensures
        match r {
            Ok(v) => spec_extract_backup(gist@) == Ok::<Seq<PackageView>, SyncError>(views(v@)),
            Err(e) => spec_extract_backup(gist@) == Err::<Seq<PackageView>, SyncError>(e),
        },
{
    let ghost fvs = file_views(gist.files@);
    let mut i: usize = 0;
    while i < gist.files.len()
        invariant
            0 <= i <= gist.files@.len(),
            fvs == file_views(gist.files@),
            fvs.len() == gist.files@.len(),
            find_backup_file(fvs, 0) == find_backup_file(fvs, i as int),
        decreases gist.files@.len() - i,
    {
        proof {
            assert(fvs[i as int] == gist.files@[i as int]@);
        }
        if str_eq(gist.files[i].filename.as_str(), "backup.json") {
            proof {
                assert(find_backup_file(fvs, i as int) == i);
            }
            match &gist.files[i].content {
                None => {
                    return Err(SyncError::RemoteError);
                },
                Some(content) => {
                    match parse_packages(content.as_str()) {
                        None => {
                            return Err(SyncError::RemoteError);
                        },
                        Some(packages) => {
                            return Ok(packages);
                        },
                    }
                },
            }
        }
        i = i + 1;
    }
    Err(SyncError::RemoteError)
}

/// Law: pushing a package set with no remote document id creates the
/// document (a `POST` of the serialized set) and attaches the server's
/// id to the configuration; a pull with that credential then reads the
/// created document, and a document whose backup file holds what the
/// push wrote returns an equal package set.
pub proof fn lemma_push_then_pull(
    auth: Seq<char>,
    ps: Seq<PackageView>,
    status: u16,
    id: Seq<char>,
    g: GistView,
    k: int,
)
    requires
        crate::codec::packages_wf(ps),
        200 <= status < 300,
        0 <= k < g.files.len(),
        g.files[k].filename == backup_filename(),
        forall|j: int| 0 <= j < k ==> (#[trigger] g.files[j]).filename != backup_filename(),
        g.files[k].content == Some(ser_packages(ps)),
    ensures
        spec_plan_push(Some(auth), ConfigView { gist_id: None }, ps) == Ok::<
            RemoteRequestView,
            SyncError,
        >(
            RemoteRequestView {
                method: Method::Post,
                url: gists_base(),
                auth_header: auth_header_value(auth),
                body: Some(push_body(ser_packages(ps))),
            },
        ),
        spec_after_push(ConfigView { gist_id: None }, status, Some(id)) == Ok::<
            (ConfigView, bool),
            SyncError,
        >((ConfigView { gist_id: Some(id) }, true)),
        spec_plan_pull(Some(auth), ConfigView { gist_id: Some(id) }) == Ok::<
            RemoteRequestView,
            SyncError,
        >(
            RemoteRequestView {
                method: Method::Get,
                url: gist_url(id),
                auth_header: auth_header_value(auth),
                body: None,
            },
        ),
        spec_extract_backup(g) == Ok::<Seq<PackageView>, SyncError>(ps),
{
    lemma_find_backup_file_at(g.files, k);
    crate::codec::lemma_backup_roundtrip(ps);
}

/// The first backup file is at `k` when `k` holds one and none stands
/// before it.
proof fn lemma_find_backup_file_at(files: Seq<FileView>, k: int)
    requires
        0 <= k < files.len(),
        files[k].filename == backup_filename(),
        forall|j: int| 0 <= j < k ==> (#[trigger] files[j]).filename != backup_filename(),
    ensures
        find_backup_file(files, 0) == k,
{
    lemma_find_backup_file_from(files, 0, k);
}

/// `find_backup_file` walks past non-backup files.
proof fn lemma_find_backup_file_from(files: Seq<FileView>, pos: int, k: int)
    requires
        0 <= pos <= k < files.len(),
        files[k].filename == backup_filename(),
        forall|j: int| pos <= j < k ==> (#[trigger] files[j]).filename != backup_filename(),
    ensures
        find_backup_file(files, pos) == k,
    decreases k - pos,
{
    if pos < k {
        lemma_find_backup_file_from(files, pos + 1, k);
    }
}

} // verus!
