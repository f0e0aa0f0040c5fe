//! Routing and its security gate: who may ask, what a path stands for, and
//! which file or directory answers it.

use crate::error::AppError;
use crate::fields::{field_value, fields_view, value_of};
use crate::fs::{
    directory_listing, directory_view, file_response, generate_directory_listing, serve_file,
    DirectoryEntry, DirectoryEntryView,
};
use crate::http::{BodyView, Request, RequestView, Response, ResponseBody, ResponseView};
use crate::pattern::{find_allowing, first_allowing, patterns_view};
use crate::server::ServerConfig;
use crate::templates::{static_asset, TemplateEngine};
use crate::text::{
    append_decimal, chars_eq, chars_of, decimal, find_char, first_char, has_prefix,
    lemma_first_char, lemma_first_char_at, matches_at, str_eq, string_of, utf8_text,
};
use vstd::prelude::*;
use vstd::string::*;
use vstd::utf8::{decode_utf8, encode_utf8, valid_utf8};

verus! {

/// The bytes that `text` stands for in standard base64 with padding, as the
/// `base64` crate decodes it; `None` where the crate rejects the text.
pub uninterp spec fn base64_decoded(text: Seq<char>) -> Option<Seq<u8>>;

/// `Engine::decode` of the `base64` crate on its `STANDARD` engine: the
/// decoded bytes, or nothing where the text is no base64. The result is a
/// function of the text alone and is only given a name here.
#[verifier::external_body]
pub(crate) fn decode_base64(text: &str) -> (bytes: Option<Vec<u8>>)
    ensures
        match bytes {
            Some(b) => base64_decoded(text@) == Some(b@),
            None => base64_decoded(text@) is None,
        },
{
    base64::Engine::decode(&base64::engine::general_purpose::STANDARD, text).ok()
}

/// Whether `text` is `user`, a colon, and `pass`. The first colon divides.
pub open spec fn credentials_match(text: Seq<char>, user: Seq<char>, pass: Seq<char>) -> bool {
    let colon = first_char(text, 0, text.len() as int, ':');
    colon < text.len() && text.take(colon) == user && text.skip(colon + 1) == pass
}

/// Whether an `Authorization` header proves knowledge of the credentials:
/// it must read `Basic`, a space, and the base64 form of `user:pass`.
pub open spec fn authenticated(header: Option<Seq<char>>, user: Seq<char>, pass: Seq<char>) -> bool {
    match header {
        None => false,
        Some(h) => has_prefix(h, "Basic "@) && match base64_decoded(
            h.skip("Basic "@.len() as int),
        ) {
            None => false,
            Some(bytes) => valid_utf8(bytes) && credentials_match(decode_utf8(bytes), user, pass),
        },
    }
}

/// Checks the `Authorization` header against the configured credentials.
pub fn is_authenticated(auth_header: Option<&String>, user: &str, pass: &str) -> (ok: bool)
    ensures
        ok == authenticated(
            match auth_header {
                Some(h) => Some(h@),
                None => None,
            },
            user@,
            pass@,
        ),
{
    let header = match auth_header {
        Some(h) => h,
        None => {
            return false;
        },
    };
    let chars = chars_of(header.as_str());
    let scheme = chars_of("Basic ");
    if !matches_at(&chars, 0, &scheme) {
        return false;
    }
    let encoded = string_of(&chars, scheme.len(), chars.len());
    assert(encoded@ == header@.skip("Basic "@.len() as int));
    let bytes = match decode_base64(encoded.as_str()) {
        Some(b) => b,
        None => {
            return false;
        },
    };
    let text = match utf8_text(bytes.as_slice()) {
        Some(t) => t,
        None => {
            return false;
        },
    };
    let given = chars_of(text);
    let colon = find_char(&given, 0, given.len(), ':');
    if colon >= given.len() {
        return false;
    }
    let user_chars = chars_of(user);
    let pass_chars = chars_of(pass);
    assert(given@.take(colon as int) == given@.subrange(0, colon as int));
    assert(given@.skip(colon + 1) == given@.subrange(colon + 1, given@.len() as int));
    chars_eq(&given, 0, colon, &user_chars) && chars_eq(&given, colon + 1, given.len(), &pass_chars)
}

/// The component stack after one more component of a path: an empty one and
/// `.` change nothing, `..` takes the last component off, and anything else
/// is put on top. `None` where `..` finds nothing to take off.
pub open spec fn push_component(stack: Seq<Seq<char>>, component: Seq<char>) -> Option<
    Seq<Seq<char>>,
> {
    if component.len() == 0 || component == seq!['.'] {
        Some(stack)
    } else if component == seq!['.', '.'] {
        if stack.len() == 0 {
            None
        } else {
            Some(stack.drop_last())
        }
    } else {
        Some(stack.push(component))
    }
}

/// The component stack after the components of `path` from position `from`
/// on, which slashes divide, were put on `stack` one after the other.
/// `None` where the path climbs above its starting point.
pub open spec fn walk(path: Seq<char>, from: int, stack: Seq<Seq<char>>) -> Option<
    Seq<Seq<char>>,
>
    decreases path.len() - from,
{
    if from < 0 || from > path.len() {
        Some(stack)
    } else {
        let end = first_char(path, from, path.len() as int, '/');
        if end < from {
            Some(stack)
        } else {
            match push_component(stack, path.subrange(from, end)) {
                None => None,
                Some(next) => if end >= path.len() {
                    Some(next)
                } else {
                    walk(path, end + 1, next)
                },
            }
        }
    }
}

/// The components that `path` comes to, or `None` where it would leave the
/// directory it starts in.
pub open spec fn normalized(path: Seq<char>) -> Option<Seq<Seq<char>>> {
    walk(path, 0, Seq::empty())
}

/// The components joined by slashes.
pub open spec fn join_components(stack: Seq<Seq<char>>) -> Seq<char>
    decreases stack.len(),
{
    if stack.len() == 0 {
        Seq::empty()
    } else if stack.len() == 1 {
        stack[0]
    } else {
        join_components(stack.drop_last()).push('/') + stack.last()
    }
}

/// The texts of `components`.
pub open spec fn components_view(components: Seq<String>) -> Seq<Seq<char>> {
    Seq::new(components.len(), |i: int| components[i]@)
}

/// Joins the components by slashes.
pub fn join(components: &Vec<String>) -> (joined: String)
    ensures
        joined@ == join_components(components_view(components@)),
{
    let mut out = String::new();
    let mut i: usize = 0;
    let ghost all = components_view(components@);
    assert(all.take(0) =~= Seq::empty());
    while i < components.len()
        invariant
            i <= components@.len(),
            all == components_view(components@),
            out@ == join_components(all.take(i as int)),
        decreases components@.len() - i,
    {
        let ghost before = all.take(i as int);
        let ghost next = all.take(i + 1);
        if i > 0 {
            out.push('/');
        }
        out.append(components[i].as_str());
        proof {
            assert(next.drop_last() =~= before);
            assert(next.last() == components@[i as int]@);
            if i == 0 {
                assert(out@ =~= next[0]);
            }
        }
        i += 1;
    }
    assert(all.take(components@.len() as int) =~= all);
    out
}

/// Brings a requested path to its components: empty components and `.` are
/// dropped, and `..` drops the component before it. A path that would climb
/// above the directory it starts in is forbidden; the file system is not
/// asked. The result is the remaining components, joined by slashes.
pub fn normalize_path(path: &str) -> (safe: Result<String, AppError>)
    ensures
        match safe {
            Ok(p) => normalized(path@) matches Some(stack) && p@ == join_components(stack),
            Err(e) => e == AppError::Forbidden && normalized(path@) is None,
        },
{
    let chars = chars_of(path);
    let mut stack: Vec<String> = Vec::new();
    let mut at: usize = 0;
    assert(components_view(stack@) =~= Seq::empty());
    loop
        invariant
            at <= chars@.len(),
            chars@ == path@,
            normalized(path@) == walk(path@, at as int, components_view(stack@)),
        decreases chars@.len() - at,
    {
        let end = find_char(&chars, at, chars.len(), '/');
        let ghost before = components_view(stack@);
        let ghost component = chars@.subrange(at as int, end as int);
        let size = end - at;
        if size == 0 || (size == 1 && chars[at] == '.') {
            assert(size == 1 ==> component =~= seq!['.']);
        } else if size == 2 && chars[at] == '.' && chars[at + 1] == '.' {
            assert(component =~= seq!['.', '.']);
            if stack.len() == 0 {
                return Err(AppError::Forbidden);
            }
            stack.pop();
            assert(components_view(stack@) =~= before.drop_last());
        } else {
            assert(component != seq!['.']) by {
                if component == seq!['.'] {
                    assert(component.len() == 1);
                    assert(component[0] == '.');
                }
            }
            assert(component != seq!['.', '.']) by {
                if component == seq!['.', '.'] {
                    assert(component.len() == 2);
                    assert(component[0] == '.');
                    assert(component[1] == '.');
                }
            }
            stack.push(string_of(&chars, at, end));
            assert(components_view(stack@) =~= before.push(component));
        }
        if end >= chars.len() {
            return Ok(join(&stack));
        }
        at = end + 1;
    }
}

/// A component that names an entry of a directory and nothing else: it is
/// not empty, holds no slash, and is neither `.` nor `..`.
pub open spec fn plain_component(component: Seq<char>) -> bool {
    &&& component.len() > 0
    &&& !component.contains('/')
    &&& component != seq!['.']
    &&& component != seq!['.', '.']
}

/// Whether every component of the stack is plain.
pub open spec fn all_plain(stack: Seq<Seq<char>>) -> bool {
    forall|i: int| 0 <= i < stack.len() ==> plain_component(#[trigger] stack[i])
}

/// Walking a path puts plain components on the stack, and only those.
pub proof fn lemma_walk_plain(path: Seq<char>, from: int, stack: Seq<Seq<char>>)
    requires
        0 <= from <= path.len(),
        all_plain(stack),
    ensures
        walk(path, from, stack) matches Some(out) ==> all_plain(out),
    decreases path.len() - from,
{
    lemma_first_char(path, from, path.len() as int, '/');
    let end = first_char(path, from, path.len() as int, '/');
    let component = path.subrange(from, end);
    match push_component(stack, component) {
        None => {},
        Some(next) => {
            assert forall|i: int| 0 <= i < next.len() implies plain_component(
                #[trigger] next[i],
            ) by {
                if i < stack.len() {
                    assert(next[i] == stack[i]);
                } else {
                    assert(next[i] == component);
                    if component.contains('/') {
                        let k = choose|k: int| 0 <= k < component.len() && component[k] == '/';
                        assert(path[from + k] == '/');
                    }
                }
            }
            if end < path.len() {
                lemma_walk_plain(path, end + 1, next);
            }
        },
    }
}

/// The path under `root` that the components lead to.
pub open spec fn resolve_path(root: Seq<char>, stack: Seq<Seq<char>>) -> Seq<char> {
    if stack.len() == 0 {
        root
    } else if root.len() > 0 && root.last() == '/' {
        root + join_components(stack)
    } else {
        root.push('/') + join_components(stack)
    }
}

/// Whether `path` is `root` or lies below it: it is the root, or it begins
/// with the root and a slash.
pub open spec fn under_root(path: Seq<char>, root: Seq<char>) -> bool {
    ||| path == root
    ||| has_prefix(path, root.push('/'))
    ||| (root.len() > 0 && root.last() == '/' && has_prefix(path, root))
}

/// A path that was put together from the root and a component stack lies
/// under the root.
pub proof fn lemma_resolved_under_root(root: Seq<char>, stack: Seq<Seq<char>>)
    ensures
        under_root(resolve_path(root, stack), root),
{
    let full = resolve_path(root, stack);
    if stack.len() > 0 {
        if root.len() > 0 && root.last() == '/' {
            assert(full.subrange(0, root.len() as int) =~= root);
        } else {
            assert(full.subrange(0, (root.len() + 1) as int) =~= root.push('/'));
        }
    }
}

/// A path that does not climb above its starting point comes to components
/// that each name an entry and nothing else, and the path that they resolve
/// to lies under the root.
pub proof fn lemma_normal_form_under_root(root: Seq<char>, path: Seq<char>)
    ensures
        normalized(path) matches Some(stack) ==> all_plain(stack) && under_root(
            resolve_path(root, stack),
            root,
        ),
{
    lemma_walk_plain(path, 0, Seq::empty());
    if normalized(path) is Some {
        lemma_resolved_under_root(root, normalized(path)->0);
    }
}

/// Whether `path` is `root` or lies below it.
pub fn is_within_root(path: &str, root: &str) -> (inside: bool)
    ensures
        inside == under_root(path@, root@),
{
    let path_chars = chars_of(path);
    let mut prefix = chars_of(root);
    assert(path_chars@.subrange(0, path_chars@.len() as int) == path_chars@);
    if chars_eq(&path_chars, 0, path_chars.len(), &prefix) {
        return true;
    }
    if prefix.len() > 0 && prefix[prefix.len() - 1] == '/' && matches_at(&path_chars, 0, &prefix) {
        return true;
    }
    prefix.push('/');
    matches_at(&path_chars, 0, &prefix)
}

/// Joins the root and a normalized relative path.
pub fn join_root(root: &str, relative: &str) -> (full: String)
    ensures
        full@ == if relative@.len() == 0 {
            root@
        } else if root@.len() > 0 && root@.last() == '/' {
            root@ + relative@
        } else {
            root@.push('/') + relative@
        },
{
    let mut full = String::from_str(root);
    let root_chars = chars_of(root);
    let relative_chars = chars_of(relative);
    if relative_chars.len() == 0 {
        return full;
    }
    if !(root_chars.len() > 0 && root_chars[root_chars.len() - 1] == '/') {
        full.push('/');
    }
    full.append(relative);
    full
}

/// Where a request leads.
#[derive(Debug, Clone, PartialEq, Eq)]
pub enum Route {
    /// The health check.
    Health,
    /// A built-in asset, by its name below the static prefix.
    StaticAsset(String),
    /// A path in the file system, under the root.
    Filesystem(String),
}

/// What `Route` holds, as text.
pub enum RouteView {
    Health,
    StaticAsset(Seq<char>),
    Filesystem(Seq<char>),
}

impl View for Route {
    type V = RouteView;

    open spec fn view(&self) -> RouteView {
        match self {
            Route::Health => RouteView::Health,
            Route::StaticAsset(name) => RouteView::StaticAsset(name@),
            Route::Filesystem(path) => RouteView::Filesystem(path@),
        }
    }
}

/// The text of an optional string.
pub open spec fn option_view(text: Option<String>) -> Option<Seq<char>> {
    match text {
        Some(t) => Some(t@),
        None => None,
    }
}

/// Whether the request may pass: without configured credentials every
/// request may; with them, only one that proves to know them.
pub open spec fn admitted(
    request: RequestView,
    username: Option<Seq<char>>,
    password: Option<Seq<char>>,
) -> bool {
    username is Some && password is Some ==> authenticated(
        value_of(request.headers, "authorization"@),
        username->0,
        password->0,
    )
}

/// Where `request` leads, in the order of the checks: credentials first,
/// then the reserved routes, then the method, then the path.
pub open spec fn routed(
    request: RequestView,
    root: Seq<char>,
    username: Option<Seq<char>>,
    password: Option<Seq<char>>,
) -> Result<RouteView, AppError> {
    if !admitted(request, username, password) {
        Err(AppError::Unauthorized)
    } else if request.path == "/_health"@ || request.path == "/_status"@ {
        Ok(RouteView::Health)
    } else if has_prefix(request.path, "/_static/"@) {
        Ok(RouteView::StaticAsset(request.path.skip("/_static/"@.len() as int)))
    } else if request.method != "GET"@ {
        Err(AppError::MethodNotAllowed)
    } else {
        match normalized(request.path) {
            None => Err(AppError::Forbidden),
            Some(stack) => Ok(RouteView::Filesystem(resolve_path(root, stack))),
        }
    }
}

/// Decides where a request leads, before the file system is asked.
///
/// With credentials configured, a request that does not prove to know them
/// is unauthorized. The health check and the built-in assets are answered
/// for every method. Everything else must be a `GET`, and its path must stay
/// under the root.
pub fn route_request(
    request: &Request,
    base_dir: &str,
    username: &Option<String>,
    password: &Option<String>,
) -> (route: Result<Route, AppError>)
    ensures
        match route {
            Ok(r) => routed(request@, base_dir@, option_view(*username), option_view(*password))
                == Ok::<RouteView, AppError>(r@),
            Err(e) => routed(request@, base_dir@, option_view(*username), option_view(*password))
                == Err::<RouteView, AppError>(e),
        },
{
    match (username, password) {
        (Some(user), Some(pass)) => {
            if !is_authenticated(
                field_value(&request.headers, "authorization"),
                user.as_str(),
                pass.as_str(),
            ) {
                return Err(AppError::Unauthorized);
            }
        },
        _ => {},
    }
    let path = request.path.as_str();
    if str_eq(path, "/_health") || str_eq(path, "/_status") {
        return Ok(Route::Health);
    }
    let chars = chars_of(path);
    let prefix = chars_of("/_static/");
    if matches_at(&chars, 0, &prefix) {
        let name = string_of(&chars, prefix.len(), chars.len());
        assert(name@ == request@.path.skip("/_static/"@.len() as int));
        return Ok(Route::StaticAsset(name));
    }
    if !str_eq(request.method.as_str(), "GET") {
        return Err(AppError::MethodNotAllowed);
    }
    match normalize_path(path) {
        Err(e) => Err(e),
        Ok(relative) => {
            proof {
                lemma_walk_plain(path@, 0, Seq::empty());
                lemma_join_empty(normalized(path@)->0);
            }
            Ok(Route::Filesystem(join_root(base_dir, relative.as_str())))
        },
    }
}

/// Traversal safety. A request whose path would climb above the root never
/// reaches the file system, and where the method and the credentials are in
/// order and the route is not a reserved one, it is forbidden. Every other
/// request that leads to the file system leads to a path under the root,
/// made of components that each name an entry and nothing else.
pub proof fn lemma_traversal_safety(
    request: RequestView,
    root: Seq<char>,
    username: Option<Seq<char>>,
    password: Option<Seq<char>>,
)
    ensures
        normalized(request.path) is None ==> !(routed(request, root, username, password) matches Ok(
            RouteView::Filesystem(_),
        )),
        normalized(request.path) is None && admitted(request, username, password) && request.method
            == "GET"@ && request.path != "/_health"@ && request.path != "/_status"@ && !has_prefix(
            request.path,
            "/_static/"@,
        ) ==> routed(request, root, username, password) == Err::<RouteView, AppError>(
            AppError::Forbidden,
        ),
        routed(request, root, username, password) matches Ok(RouteView::Filesystem(full))
            ==> normalized(request.path) matches Some(stack) && all_plain(stack) && full
            == resolve_path(root, stack) && under_root(full, root),
{
    lemma_normal_form_under_root(root, request.path);
}

/// Authentication. Without configured credentials no request is turned
/// away for want of them. With them, a request without an `Authorization`
/// header, or with one that does not prove knowledge of them, is
/// unauthorized; and one that does is handled as if none were configured.
pub proof fn lemma_auth_gating(
    request: RequestView,
    root: Seq<char>,
    user: Seq<char>,
    pass: Seq<char>,
)
    ensures
        routed(request, root, None, None) != Err::<RouteView, AppError>(AppError::Unauthorized),
        value_of(request.headers, "authorization"@) is None ==> routed(
            request,
            root,
            Some(user),
            Some(pass),
        ) == Err::<RouteView, AppError>(AppError::Unauthorized),
        !authenticated(value_of(request.headers, "authorization"@), user, pass) ==> routed(
            request,
            root,
            Some(user),
            Some(pass),
        ) == Err::<RouteView, AppError>(AppError::Unauthorized),
        authenticated(value_of(request.headers, "authorization"@), user, pass) ==> routed(
            request,
            root,
            Some(user),
            Some(pass),
        ) == routed(request, root, None, None),
{
}

/// The header `Basic`, a space, and a text that base64 decodes to
/// `name:word` proves knowledge of exactly the credentials `name` and
/// `word`, for a name without a colon.
pub proof fn lemma_basic_credentials(
    encoded: Seq<char>,
    name: Seq<char>,
    word: Seq<char>,
    user: Seq<char>,
    pass: Seq<char>,
)
    requires
        base64_decoded(encoded) == Some(encode_utf8(name.push(':') + word)),
        !name.contains(':'),
    ensures
        authenticated(Some("Basic "@ + encoded), user, pass) <==> name == user && word == pass,
{
    broadcast use vstd::utf8::encode_utf8_valid_utf8, vstd::utf8::encode_utf8_decode_utf8;

    let header = "Basic "@ + encoded;
    let text = name.push(':') + word;
    assert(header.subrange(0, "Basic "@.len() as int) =~= "Basic "@);
    assert(header.skip("Basic "@.len() as int) =~= encoded);
    assert(decode_utf8(encode_utf8(text)) == text);
    assert(text[name.len() as int] == ':');
    assert forall|k: int| 0 <= k < name.len() implies text[k] != ':' by {
        assert(text[k] == name[k]);
        if name[k] == ':' {
            assert(name.contains(':'));
        }
    }
    lemma_first_char_at(text, 0, text.len() as int, ':', name.len() as int);
    assert(text.take(name.len() as int) =~= name);
    assert(text.skip(name.len() as int + 1) =~= word);
}

/// Plain components join to the empty text only when there are none.
pub proof fn lemma_join_empty(stack: Seq<Seq<char>>)
    requires
        all_plain(stack),
    ensures
        join_components(stack).len() == 0 <==> stack.len() == 0,
    decreases stack.len(),
{
    if stack.len() == 1 {
        assert(plain_component(stack[0]));
    } else if stack.len() > 1 {
        lemma_join_empty(stack.drop_last());
    }
}

/// What the file system holds at a path.
#[derive(Debug, Clone, Copy, PartialEq, Eq)]
pub enum EntryKind {
    Missing,
    Directory,
    File,
    Other,
}

/// The kind of a resolved target.
#[derive(Debug, Clone, Copy, PartialEq, Eq)]
pub enum TargetKind {
    File,
    Directory,
}

/// A path that may be served: its canonical form, its kind, and for a file
/// the pattern of the allow-list that lets it pass.
#[derive(Debug, Clone, PartialEq, Eq)]
pub struct ResolvedTarget {
    pub path: String,
    pub kind: TargetKind,
    pub pattern: Option<String>,
}

/// What `ResolvedTarget` holds, as text.
pub struct ResolvedTargetView {
    pub path: Seq<char>,
    pub kind: TargetKind,
    pub pattern: Option<Seq<char>>,
}

impl View for ResolvedTarget {
    type V = ResolvedTargetView;

    open spec fn view(&self) -> ResolvedTargetView {
        ResolvedTargetView {
            path: self.path@,
            kind: self.kind,
            pattern: option_view(self.pattern),
        }
    }
}

/// What a path resolves to once the file system has said what is there.
///
/// `canonical` is the path with its symbolic links resolved and `kind` what
/// it holds. What is missing is not found. What lies outside the root is
/// forbidden. A directory passes. A file passes with the first pattern of
/// the allow-list that matches it, and is forbidden where none does.
pub open spec fn resolved(
    root: Seq<char>,
    allowed: Seq<Seq<char>>,
    canonical: Seq<char>,
    kind: EntryKind,
) -> Result<ResolvedTargetView, AppError> {
    if kind == EntryKind::Missing {
        Err(AppError::NotFound)
    } else if !under_root(canonical, root) {
        Err(AppError::Forbidden)
    } else {
        match kind {
            EntryKind::Directory => Ok(
                ResolvedTargetView { path: canonical, kind: TargetKind::Directory, pattern: None },
            ),
            EntryKind::File => {
                let at = first_allowing(allowed, canonical, 0);
                if at < allowed.len() {
                    Ok(
                        ResolvedTargetView {
                            path: canonical,
                            kind: TargetKind::File,
                            pattern: Some(allowed[at]),
                        },
                    )
                } else {
                    Err(AppError::Forbidden)
                }
            },
            _ => Err(AppError::NotFound),
        }
    }
}

/// Decides whether the path that a request led to may be served.
pub fn resolve_target(root: &str, allowed: &Vec<String>, canonical: &str, kind: EntryKind) -> (target:
    Result<ResolvedTarget, AppError>)
    ensures
        match target {
            Ok(t) => resolved(root@, patterns_view(allowed@), canonical@, kind) == Ok::<
                ResolvedTargetView,
                AppError,
            >(t@),
            Err(e) => resolved(root@, patterns_view(allowed@), canonical@, kind) == Err::<
                ResolvedTargetView,
                AppError,
            >(e),
        },
{
    match kind {
        EntryKind::Missing => {
            return Err(AppError::NotFound);
        },
        _ => {},
    }
    if !is_within_root(canonical, root) {
        return Err(AppError::Forbidden);
    }
    match kind {
        EntryKind::Directory => Ok(
            ResolvedTarget {
                path: String::from_str(canonical),
                kind: TargetKind::Directory,
                pattern: None,
            },
        ),
        EntryKind::File => match find_allowing(allowed, canonical) {
            Some(at) => Ok(
                ResolvedTarget {
                    path: String::from_str(canonical),
                    kind: TargetKind::File,
                    pattern: Some(allowed[at].clone()),
                },
            ),
            None => Err(AppError::Forbidden),
        },
        _ => Err(AppError::NotFound),
    }
}


/// The body of the health check, up to the time.
pub const HEALTH_HEAD: &'static str =
    "{\n    \"status\": \"healthy\",\n    \"service\": \"hdl_sv\",\n    \"version\": \"2.0.0\",\n    \"timestamp\": ";

/// The body of the health check, after the time.
pub const HEALTH_TAIL: &'static str =
    ",\n    \"features\": [\n        \"rate_limiting\",\n        \"statistics\", \n        \"native_mime_detection\",\n        \"enhanced_security\",\n        \"beautiful_ui\",\n        \"http11_compliance\",\n        \"request_timeouts\",\n        \"panic_recovery\"\n    ]\n}";

/// The answer to the health check at the time `timestamp`.
pub open spec fn health_response(timestamp: u64) -> ResponseView {
    ResponseView {
        status_code: 200,
        status_text: "OK"@,
        headers: seq![
            ("Content-Type"@, "application/json; charset=utf-8"@),
            ("Cache-Control"@, "no-cache"@),
        ],
        body: BodyView::Text(HEALTH_HEAD@ + decimal(timestamp as nat) + HEALTH_TAIL@),
    }
}

/// Answers the health check: a fixed status in JSON with the time, in
/// seconds since 1970.
pub fn create_health_check_response(timestamp: u64) -> (response: Response)
    ensures
        response@ == health_response(timestamp),
{
    let mut body = String::from_str(HEALTH_HEAD);
    append_decimal(&mut body, timestamp);
    body.append(HEALTH_TAIL);
    let mut headers: Vec<(String, String)> = Vec::new();
    headers.push(
        (String::from_str("Content-Type"), String::from_str("application/json; charset=utf-8")),
    );
    headers.push((String::from_str("Cache-Control"), String::from_str("no-cache")));
    assert(fields_view(headers@) =~= health_response(timestamp).headers);
    Response {
        status_code: 200,
        status_text: String::from_str("OK"),
        headers,
        body: ResponseBody::Text(body),
    }
}

/// The answer to a request for the built-in asset `name`.
pub open spec fn asset_response(name: Seq<char>) -> Result<ResponseView, AppError> {
    match static_asset(name) {
        None => Err(AppError::NotFound),
        Some((content, content_type)) => Ok(
            ResponseView {
                status_code: 200,
                status_text: "OK"@,
                headers: seq![
                    ("Content-Type"@, content_type),
                    ("Cache-Control"@, "public, max-age=3600"@),
                ],
                body: BodyView::Text(content),
            },
        ),
    }
}

/// Answers a request for a built-in asset, by its name below the static
/// prefix. An asset that is not there is not found.
pub fn handle_static_asset(name: &str) -> (response: Result<Response, AppError>)
    ensures
        match response {
            Ok(r) => asset_response(name@) == Ok::<ResponseView, AppError>(r@),
            Err(e) => asset_response(name@) == Err::<ResponseView, AppError>(e),
        },
{
    let engine = TemplateEngine::new();
    match engine.get_static_asset(name) {
        None => Err(AppError::NotFound),
        Some((content, content_type)) => {
            let mut headers: Vec<(String, String)> = Vec::new();
            headers.push((String::from_str("Content-Type"), String::from_str(content_type)));
            headers.push(
                (String::from_str("Cache-Control"), String::from_str("public, max-age=3600")),
            );
            assert(fields_view(headers@) =~= seq![
                ("Content-Type"@, content_type@),
                ("Cache-Control"@, "public, max-age=3600"@),
            ]);
            Ok(
                Response {
                    status_code: 200,
                    status_text: String::from_str("OK"),
                    headers,
                    body: ResponseBody::Text(String::from_str(content)),
                },
            )
        },
    }
}

/// The answer to a request for a directory: its listing as a page.
pub open spec fn directory_response(page: Seq<char>) -> ResponseView {
    ResponseView {
        status_code: 200,
        status_text: "OK"@,
        headers: seq![("Content-Type"@, "text/html; charset=utf-8"@)],
        body: BodyView::Text(page),
    }
}

/// Answers a request for a directory with the entries `entries`, asked for
/// as `request_path`, at the time `now` in seconds since 1970.
pub fn serve_directory(entries: &Vec<DirectoryEntry>, request_path: &str, now: u64) -> (response:
    Result<Response, AppError>)
    ensures
        response matches Ok(r) && r@ == directory_response(
            directory_listing(directory_view(entries@), request_path@, now),
        ),
{
    match generate_directory_listing(entries, request_path, now) {
        Err(e) => Err(e),
        Ok(page) => {
            let mut headers: Vec<(String, String)> = Vec::new();
            headers.push(
                (String::from_str("Content-Type"), String::from_str("text/html; charset=utf-8")),
            );
            assert(fields_view(headers@) =~= seq![
                ("Content-Type"@, "text/html; charset=utf-8"@),
            ]);
            Ok(
                Response {
                    status_code: 200,
                    status_text: String::from_str("OK"),
                    headers,
                    body: ResponseBody::Text(page),
                },
            )
        },
    }
}


/// What the file system says of the path that a request led to.
#[derive(Debug, Clone, PartialEq, Eq)]
pub struct Probe {
    /// The path with its symbolic links resolved.
    pub canonical: String,
    /// What the path holds.
    pub kind: EntryKind,
    /// The length of a file, in bytes.
    pub size: u64,
    /// The entries of a directory.
    pub entries: Vec<DirectoryEntry>,
}

/// What `Probe` holds, as text and numbers.
pub struct ProbeView {
    pub canonical: Seq<char>,
    pub kind: EntryKind,
    pub size: u64,
    pub entries: Seq<DirectoryEntryView>,
}

impl View for Probe {
    type V = ProbeView;

    open spec fn view(&self) -> ProbeView {
        ProbeView {
            canonical: self.canonical@,
            kind: self.kind,
            size: self.size,
            entries: directory_view(self.entries@),
        }
    }
}

/// The answer to a request that was routed to `route`.
///
/// The health check and the built-in assets are answered as they are. A
/// path in the file system is answered by what the file system holds
/// there: a directory with its listing, a file that the allow-list lets
/// pass with its content or the range of it that was asked for, and
/// everything else with the error that it earns.
pub open spec fn answer(
    request: RequestView,
    root: Seq<char>,
    allowed: Seq<Seq<char>>,
    chunk_size: usize,
    route: RouteView,
    probe: ProbeView,
    now: u64,
) -> Result<ResponseView, AppError> {
    match route {
        RouteView::Health => Ok(health_response(now)),
        RouteView::StaticAsset(name) => asset_response(name),
        RouteView::Filesystem(_) => match resolved(root, allowed, probe.canonical, probe.kind) {
            Err(e) => Err(e),
            Ok(target) => match target.kind {
                TargetKind::Directory => Ok(
                    directory_response(directory_listing(probe.entries, request.path, now)),
                ),
                TargetKind::File => file_response(
                    target.path,
                    probe.size,
                    value_of(request.headers, "range"@),
                    chunk_size,
                ),
            },
        },
    }
}

/// Answers a request that was routed to `route`, once the file system has
/// been asked about the path: `probe` holds what it said, and is not looked
/// at for a route that leads elsewhere. `now` is the time in seconds since
/// 1970.
pub fn respond_to(
    request: &Request,
    config: &ServerConfig,
    route: &Route,
    probe: &Probe,
    now: u64,
) -> (response: Result<Response, AppError>)
    ensures
        match response {
            Ok(r) => answer(
                request@,
                config.root@,
                patterns_view(config.allowed_extensions@),
                config.chunk_size,
                route@,
                probe@,
                now,
            ) == Ok::<ResponseView, AppError>(r@) && (r.body matches ResponseBody::Stream(d)
                ==> d.wf()),
            Err(e) => answer(
                request@,
                config.root@,
                patterns_view(config.allowed_extensions@),
                config.chunk_size,
                route@,
                probe@,
                now,
            ) == Err::<ResponseView, AppError>(e),
        },
{
    match route {
        Route::Health => Ok(create_health_check_response(now)),
        Route::StaticAsset(name) => handle_static_asset(name.as_str()),
        Route::Filesystem(_) => {
            let target = match resolve_target(
                config.root.as_str(),
                &config.allowed_extensions,
                probe.canonical.as_str(),
                probe.kind,
            ) {
                Ok(target) => target,
                Err(e) => {
                    return Err(e);
                },
            };
            match target.kind {
                TargetKind::Directory => serve_directory(
                    &probe.entries,
                    request.path.as_str(),
                    now,
                ),
                TargetKind::File => serve_file(
                    target.path.as_str(),
                    probe.size,
                    &request.headers,
                    config.chunk_size,
                ),
            }
        },
    }
}

/// The allow-list at work: a file passes exactly when one of the patterns
/// matches its path, and is forbidden when none does.
pub proof fn lemma_allow_list(root: Seq<char>, allowed: Seq<Seq<char>>, canonical: Seq<char>)
    requires
        under_root(canonical, root),
    ensures
        resolved(root, allowed, canonical, EntryKind::File) is Ok <==> exists|i: int|
            0 <= i < allowed.len() && crate::pattern::allows(#[trigger] allowed[i], canonical),
        !(resolved(root, allowed, canonical, EntryKind::File) is Ok) ==> resolved(
            root,
            allowed,
            canonical,
            EntryKind::File,
        ) == Err::<ResolvedTargetView, AppError>(AppError::Forbidden),
{
    crate::pattern::lemma_first_allowing(allowed, canonical, 0);
}

} // verus!
