//! Laws of paths and routes.
use vstd::prelude::*;

use crate::path;
use crate::route;
use crate::path::Parts;
use crate::route::{ApiRoute, ApiRouteView, SubApi, SubApiView};

verus! {

// ---- Paths ----
/// Whether no character of `s` is a slash.
pub open spec fn slash_free(s: Seq<char>) -> bool {
    forall|i: int| 0 <= i < s.len() ==> #[trigger] s[i] != '/'
}

/// Whether no piece holds a slash.
pub open spec fn all_slash_free(pieces: Seq<Seq<char>>) -> bool {
    forall|i: int| 0 <= i < pieces.len() ==> slash_free(#[trigger] pieces[i])
}

proof fn lemma_run(s: Seq<char>)
    ensures
        path::run_before(s, '/') <= s.len(),
        forall|i: int| 0 <= i < path::run_before(s, '/') ==> #[trigger] s[i] != '/',
        path::run_before(s, '/') < s.len() ==> s[path::run_before(s, '/') as int] == '/',
    decreases s.len(),
{
    if s.len() > 0 && s[0] != '/' {
        let rest = s.drop_first();
        lemma_run(rest);
        assert forall|i: int| 0 <= i < path::run_before(s, '/') implies #[trigger] s[i] != '/' by {
            assert(i > 0 ==> rest[i - 1] != '/');
        }
    }
}

/// Taking a text apart at its slashes gives pieces without slashes, at least one, and joining them
/// gives the text again.
pub proof fn split_then_join(s: Seq<char>)
    ensures
        path::split(s, '/').len() > 0,
        all_slash_free(path::split(s, '/')),
        path::join(path::split(s, '/'), '/') == s,
    decreases s.len(),
{
    lemma_run(s);
    let n = path::run_before(s, '/') as int;
    let pieces = path::split(s, '/');
    if n < s.len() {
        let tail = s.skip(n + 1);
        split_then_join(tail);
        assert(pieces.drop_first() =~= path::split(tail, '/'));
        assert forall|i: int| 0 <= i < pieces.len() implies slash_free(#[trigger] pieces[i]) by {
            if i > 0 {
                assert(pieces[i] == path::split(tail, '/')[i - 1]);
            }
        }
        assert(s =~= s.take(n) + seq!['/'] + tail);
    }
}

/// Joining pieces without slashes by slashes and taking the text apart again gives the pieces.
pub proof fn join_then_split(pieces: Seq<Seq<char>>)
    requires
        pieces.len() > 0,
        all_slash_free(pieces),
    ensures
        path::split(path::join(pieces, '/'), '/') == pieces,
    decreases pieces.len(),
{
    let s = path::join(pieces, '/');
    lemma_run(s);
    let n = path::run_before(s, '/') as int;
    assert(slash_free(pieces[0]));
    if pieces.len() == 1 {
        assert(n == s.len());
        assert(path::split(s, '/') =~= pieces);
    } else {
        let rest = pieces.drop_first();
        assert forall|i: int| 0 <= i < rest.len() implies slash_free(#[trigger] rest[i]) by {
            assert(rest[i] == pieces[i + 1]);
        }
        join_then_split(rest);
        let k = pieces[0].len() as int;
        assert(s[k] == '/');
        assert(forall|i: int| 0 <= i < k ==> s[i] == pieces[0][i]);
        assert(n == k);
        assert(s.take(n) =~= pieces[0]);
        assert(s.skip(n + 1) =~= path::join(rest, '/'));
        assert(path::split(s, '/') =~= pieces);
    }
}

// ---- Routes ----
/// A slash more at the start of a path changes nothing.
pub proof fn leading_slashes(s: Seq<char>)
    ensures
        route::route(seq!['/'] + s) == route::route(s),
{
    let t = seq!['/'] + s;
    assert(t.drop_first() =~= s);
}

/// A path that is written with a slash before each of its parts, none of which holds one, stands
/// for what its parts stand for.
pub proof fn route_of_parts(parts: Seq<Seq<char>>)
    requires
        parts.len() > 0,
        all_slash_free(parts),
    ensures
        parts[0] == "v0"@ ==> route::route(seq!['/'] + path::join(parts, '/')) == route::v0_route(
            parts.drop_first(),
        ),
        parts[0] == "v1"@ ==> route::route(seq!['/'] + path::join(parts, '/')) == route::v1_route(
            parts.drop_first(),
        ),
{
    reveal_strlit("v0");
    reveal_strlit("v1");
    let s = path::join(parts, '/');
    leading_slashes(s);
    join_then_split(parts);
    assert("v0"@[1] != "v1"@[1]);
    if parts[0] == "v0"@ || parts[0] == "v1"@ {
        assert(s[0] == 'v');
    }
}

/// The paths of the API: the list of tables under both versions; for each table its definition,
/// with and without `def`, all its rows, and the rows with a key.
pub proof fn paths_of_tables(name: Seq<char>, key: Seq<char>)
    requires
        slash_free(name),
        slash_free(key),
    ensures
        route::route("/v0/tables"@) == Some(ApiRouteView::Tables),
        route::route("/v1/tables"@) == Some(ApiRouteView::Tables),
        route::route("/v0/tables/"@ + name) == Some(ApiRouteView::TableByName(name)),
        route::route("/v0/tables/"@ + name + "/def"@) == Some(ApiRouteView::TableByName(name)),
        route::route("/v0/tables/"@ + name + "/all"@) == Some(ApiRouteView::AllTableRows(name)),
        key != "def"@ && key != "all"@ ==> route::route("/v0/tables/"@ + name + "/"@ + key) == Some(
            ApiRouteView::TableRowsByPK(name, key),
        ),
{
    reveal_strlit("v0");
    reveal_strlit("v1");
    reveal_strlit("tables");
    reveal_strlit("def");
    reveal_strlit("all");
    reveal_strlit("/");
    reveal_strlit("/def");
    reveal_strlit("/all");
    reveal_strlit("/v0/tables");
    reveal_strlit("/v1/tables");
    reveal_strlit("/v0/tables/");
    reveal_with_fuel(path::join, 4);
    let slash = seq!['/'];
    let p0 = seq!["v0"@, "tables"@];
    let p1 = seq!["v1"@, "tables"@];
    let pn = seq!["v0"@, "tables"@, name];
    let pd = seq!["v0"@, "tables"@, name, "def"@];
    let pa = seq!["v0"@, "tables"@, name, "all"@];
    let pk = seq!["v0"@, "tables"@, name, key];
    route_of_parts(p0);
    route_of_parts(p1);
    route_of_parts(pn);
    route_of_parts(pd);
    route_of_parts(pa);
    route_of_parts(pk);
    assert(p0.drop_first() =~= seq!["tables"@]);
    assert(p1.drop_first() =~= seq!["tables"@]);
    assert(slash + path::join(p0, '/') =~= "/v0/tables"@);
    assert(slash + path::join(p1, '/') =~= "/v1/tables"@);
    assert(pn.drop_first() =~= seq!["tables"@, name]);
    assert(pn.drop_first().drop_first() =~= seq![name]);
    assert(slash + path::join(pn, '/') =~= "/v0/tables/"@ + name);
    lemma_four(name, "def"@);
    lemma_four(name, "all"@);
    lemma_four(name, key);
    assert("def"@[0] != "all"@[0]);
    assert(slash + path::join(pd, '/') =~= "/v0/tables/"@ + name + "/def"@);
    assert(slash + path::join(pa, '/') =~= "/v0/tables/"@ + name + "/all"@);
    assert(slash + path::join(pk, '/') =~= "/v0/tables/"@ + name + "/"@ + key);
}

proof fn lemma_four(name: Seq<char>, last: Seq<char>)
    ensures
        path::join(seq!["v0"@, "tables"@, name, last], '/') == "v0"@ + seq!['/'] + ("tables"@ + seq![
            '/',
        ] + (name + seq!['/'] + last)),
{
    let p = seq!["v0"@, "tables"@, name, last];
    reveal_with_fuel(path::join, 4);
    assert(p.drop_first() =~= seq!["tables"@, name, last]);
    assert(p.drop_first().drop_first() =~= seq![name, last]);
    assert(p.drop_first().drop_first().drop_first() =~= seq![last]);
}

/// The names and keys in routes hold no slash, and a key is neither `def` nor `all`.
pub proof fn keys_of_routes(s: Seq<char>)
    ensures
        match route::route(s) {
            Some(ApiRouteView::TableByName(name)) => slash_free(name),
            Some(ApiRouteView::AllTableRows(name)) => slash_free(name),
            Some(ApiRouteView::TableRowsByPK(name, key)) => slash_free(name) && slash_free(key)
                && key != "def"@ && key != "all"@,
            Some(ApiRouteView::Locale(rest)) => all_slash_free(rest),
            _ => true,
        },
{
    let parts = path::split(path::trim_start(s, '/'), '/');
    split_then_join(path::trim_start(s, '/'));
    let below = parts.drop_first();
    assert forall|i: int| 0 <= i < below.len() implies slash_free(#[trigger] below[i]) by {
        assert(below[i] == parts[i + 1]);
    }
    if below.len() > 0 {
        let rest = below.drop_first();
        assert forall|i: int| 0 <= i < rest.len() implies slash_free(#[trigger] rest[i]) by {
            assert(rest[i] == below[i + 1]);
        }
    }
}

/// A path that leads to a part of the API beside [`route::ApiRoute`] is no [`route::ApiRoute`].
pub proof fn sub_api_apart(s: Seq<char>)
    ensures
        route::sub_route(s) is Some ==> route::route(s) is None,
{
    if route::sub_route(s) is Some {
        reveal_strlit("v0");
        reveal_strlit("crc");
        reveal_strlit("rev");
        reveal_strlit("tables");
        reveal_strlit("locale");
        reveal_strlit("openapi.json");
        let below = route::below_root(s);
        let parts = path::split(below, '/');
        split_then_join(below);
        assert(below[0] == 'v');
        assert(path::trim_start(s, '/') == below) by {
            reveal_with_fuel(path::trim_start, 2);
        }
        let rest = parts.drop_first();
        assert(rest[0] == parts[1]);
        assert("crc"@[0] != "tables"@[0] && "crc"@[0] != "locale"@[0] && "crc"@[0]
            != "openapi.json"@[0]);
        assert("rev"@[0] != "tables"@[0] && "rev"@[0] != "locale"@[0] && "rev"@[0]
            != "openapi.json"@[0]);
    }
}

// ---- What pieces and slashes are ----
/// One piece is joined to itself, and a further piece in front comes with a separator.
pub proof fn joining(piece: Seq<char>, rest: Seq<Seq<char>>, c: char)
    ensures
        path::join(Seq::<Seq<char>>::empty(), c) == Seq::<char>::empty(),
        path::join(seq![piece], c) == piece,
        rest.len() > 0 ==> path::join(seq![piece] + rest, c) == piece + seq![c] + path::join(
            rest,
            c,
        ),
{
    assert(path::join(Seq::<Seq<char>>::empty(), c) =~= Seq::<char>::empty());
    if rest.len() > 0 {
        assert((seq![piece] + rest).drop_first() =~= rest);
    }
}

/// A number of slashes.
pub open spec fn slashes(n: nat) -> Seq<char> {
    Seq::new(n, |i: int| '/')
}

/// What is left of a path without the slashes at its start does not start with one, and the slashes
/// in front of it give the path.
pub proof fn trimming(s: Seq<char>)
    ensures
        ({
            let rest = path::trim_start(s, '/');
            &&& rest.len() > 0 ==> rest[0] != '/'
            &&& rest.len() <= s.len()
            &&& s == slashes((s.len() - rest.len()) as nat) + rest
        }),
    decreases s.len(),
{
    if s.len() > 0 && s[0] == '/' {
        let tail = s.drop_first();
        trimming(tail);
        let rest = path::trim_start(s, '/');
        let n = (tail.len() - rest.len()) as nat;
        assert(s =~= seq!['/'] + tail);
        assert(seq!['/'] + slashes(n) =~= slashes(n + 1));
        assert(seq!['/'] + (slashes(n) + rest) =~= (seq!['/'] + slashes(n)) + rest);
    } else {
        assert(slashes(0) + s =~= s);
    }
}

/// The same text without slashes at its start, behind any number of slashes, is the same path.
pub proof fn any_slashes(n: nat, s: Seq<char>)
    ensures
        route::route(slashes(n) + s) == route::route(s),
    decreases n,
{
    if n == 0 {
        assert(slashes(0) + s =~= s);
    } else {
        any_slashes((n - 1) as nat, s);
        leading_slashes(slashes((n - 1) as nat) + s);
        assert(slashes(n) + s =~= seq!['/'] + (slashes((n - 1) as nat) + s));
    }
}

// ---- What every path stands for ----
proof fn lemma_two(first: Seq<char>, second: Seq<char>, rest: Seq<Seq<char>>)
    requires
        slash_free(first),
        slash_free(second),
        all_slash_free(rest),
    ensures
        all_slash_free(seq![first, second] + rest),
        (seq![first, second] + rest).drop_first() == seq![second] + rest,
        (seq![second] + rest).drop_first() == rest,
        (seq![first, second] + rest).skip(2) == rest,
{
    let all = seq![first, second] + rest;
    assert forall|i: int| 0 <= i < all.len() implies slash_free(#[trigger] all[i]) by {
        if i >= 2 {
            assert(all[i] == rest[i - 2]);
        }
    }
    assert(all.drop_first() =~= seq![second] + rest);
    assert((seq![second] + rest).drop_first() =~= rest);
    assert(all.skip(2) =~= rest);
}

proof fn lemma_words()
    ensures
        slash_free("v0"@),
        slash_free("v1"@),
        slash_free("tables"@),
        slash_free("locale"@),
        slash_free("openapi.json"@),
        slash_free("def"@),
        slash_free("all"@),
        slash_free("crc"@),
        slash_free("rev"@),
        "v0"@ != "v1"@,
        "tables"@ != "locale"@,
        "tables"@ != "openapi.json"@,
        "locale"@ != "openapi.json"@,
        "def"@ != "all"@,
        "crc"@ != "rev"@,
{
    reveal_strlit("v0");
    reveal_strlit("v1");
    reveal_strlit("tables");
    reveal_strlit("locale");
    reveal_strlit("openapi.json");
    reveal_strlit("def");
    reveal_strlit("all");
    reveal_strlit("crc");
    reveal_strlit("rev");
    assert("v0"@[1] != "v1"@[1]);
    assert("tables"@[0] != "locale"@[0]);
    assert("tables"@[0] != "openapi.json"@[0]);
    assert("locale"@[0] != "openapi.json"@[0]);
    assert("def"@[0] != "all"@[0]);
    assert("crc"@[0] != "rev"@[0]);
}

/// The path below `/v0/locale` leads to a node of the locale tree: all its parts, in order.
pub proof fn paths_of_the_locale(rest: Seq<Seq<char>>)
    requires
        all_slash_free(rest),
    ensures
        route::route(seq!['/'] + path::join(seq!["v0"@, "locale"@] + rest, '/')) == Some(
            ApiRouteView::Locale(rest),
        ),
{
    lemma_words();
    lemma_two("v0"@, "locale"@, rest);
    let parts = seq!["v0"@, "locale"@] + rest;
    route_of_parts(parts);
    assert(parts[0] == "v0"@);
    assert((seq!["locale"@] + rest)[0] == "locale"@);
}

/// The path of the description of the API.
pub proof fn path_of_the_description()
    ensures
        route::route("/v0/openapi.json"@) == Some(ApiRouteView::OpenApiV0),
{
    lemma_words();
    let none = Seq::<Seq<char>>::empty();
    lemma_two("v0"@, "openapi.json"@, none);
    let parts = seq!["v0"@, "openapi.json"@];
    assert(parts =~= seq!["v0"@, "openapi.json"@] + none);
    route_of_parts(parts);
    assert(parts.drop_first() =~= seq!["openapi.json"@]);
    reveal_with_fuel(path::join, 3);
    reveal_strlit("v0");
    reveal_strlit("openapi.json");
    reveal_strlit("/v0/openapi.json");
    assert(seq!['/'] + path::join(parts, '/') =~= "/v0/openapi.json"@);
}

/// The reverse lookups and the lookup by checksum each get all parts of the path below them, in
/// order.
pub proof fn paths_of_lookups(rest: Seq<Seq<char>>)
    requires
        all_slash_free(rest),
    ensures
        route::sub_route(seq!['/'] + path::join(seq!["v0"@, "rev"@] + rest, '/')) == Some(
            SubApiView::Rev(rest),
        ),
        route::sub_route(seq!['/'] + path::join(seq!["v0"@, "crc"@] + rest, '/')) == Some(
            SubApiView::Crc(rest),
        ),
        route::sub_route(path::join(seq!["v0"@, "rev"@] + rest, '/')) == Some(
            SubApiView::Rev(rest),
        ),
        route::sub_route(path::join(seq!["v0"@, "crc"@] + rest, '/')) == Some(
            SubApiView::Crc(rest),
        ),
{
    lemma_words();
    reveal_strlit("v0");
    let rev = seq!["v0"@, "rev"@] + rest;
    let crc = seq!["v0"@, "crc"@] + rest;
    lemma_two("v0"@, "rev"@, rest);
    lemma_two("v0"@, "crc"@, rest);
    join_then_split(rev);
    join_then_split(crc);
    assert((seq!['/'] + path::join(rev, '/')).drop_first() =~= path::join(rev, '/'));
    assert((seq!['/'] + path::join(crc, '/')).drop_first() =~= path::join(crc, '/'));
    assert(path::join(rev, '/')[0] == 'v');
    assert(path::join(crc, '/')[0] == 'v');
}

/// Whether `s` is `parts` with slashes between them, behind any number of slashes.
pub open spec fn written(s: Seq<char>, parts: Seq<Seq<char>>) -> bool {
    exists|n: nat| s == #[trigger] slashes(n) + path::join(parts, '/')
}

/// Nothing but the paths of the API stands for a route: each route comes of its own paths only.
pub proof fn routes_have_their_paths(s: Seq<char>)
    ensures
        match route::route(s) {
            Some(ApiRouteView::Tables) => written(s, seq!["v0"@, "tables"@]) || written(
                s,
                seq!["v1"@, "tables"@],
            ),
            Some(ApiRouteView::TableByName(name)) => written(s, seq!["v0"@, "tables"@, name])
                || written(s, seq!["v0"@, "tables"@, name, "def"@]),
            Some(ApiRouteView::AllTableRows(name)) => written(
                s,
                seq!["v0"@, "tables"@, name, "all"@],
            ),
            Some(ApiRouteView::TableRowsByPK(name, key)) => written(
                s,
                seq!["v0"@, "tables"@, name, key],
            ),
            Some(ApiRouteView::Locale(rest)) => written(s, seq!["v0"@, "locale"@] + rest),
            Some(ApiRouteView::OpenApiV0) => written(s, seq!["v0"@, "openapi.json"@]),
            None => true,
        },
{
    lemma_words();
    let rest = path::trim_start(s, '/');
    let parts = path::split(rest, '/');
    trimming(s);
    split_then_join(rest);
    let n = (s.len() - rest.len()) as nat;
    assert(s == slashes(n) + path::join(parts, '/'));
    assert(written(s, parts));
    let below = parts.drop_first();
    match route::route(s) {
        Some(ApiRouteView::Tables) => {
            assert(parts =~= seq!["v0"@, "tables"@] || parts =~= seq!["v1"@, "tables"@]) by {
                assert(below[0] == parts[1]);
            }
        },
        Some(ApiRouteView::TableByName(name)) => {
            assert(below[0] == parts[1] && below[1] == parts[2]);
            if parts.len() == 3 {
                assert(parts =~= seq!["v0"@, "tables"@, name]);
            } else {
                assert(below[2] == parts[3]);
                assert(parts =~= seq!["v0"@, "tables"@, name, "def"@]);
            }
        },
        Some(ApiRouteView::AllTableRows(name)) => {
            assert(below[0] == parts[1] && below[1] == parts[2] && below[2] == parts[3]);
            assert(parts =~= seq!["v0"@, "tables"@, name, "all"@]);
        },
        Some(ApiRouteView::TableRowsByPK(name, key)) => {
            assert(below[0] == parts[1] && below[1] == parts[2] && below[2] == parts[3]);
            assert(parts =~= seq!["v0"@, "tables"@, name, key]);
        },
        Some(ApiRouteView::Locale(tail)) => {
            assert(below[0] == parts[1]);
            assert(parts =~= seq!["v0"@, "locale"@] + tail);
        },
        Some(ApiRouteView::OpenApiV0) => {
            assert(below[0] == parts[1]);
            assert(parts =~= seq!["v0"@, "openapi.json"@]);
        },
        None => {},
    }
}

/// Nothing but the paths of a lookup leads to it.
pub proof fn lookups_have_their_paths(s: Seq<char>)
    ensures
        match route::sub_route(s) {
            Some(SubApiView::Crc(rest)) => {
                let path = path::join(seq!["v0"@, "crc"@] + rest, '/');
                s == path || s == seq!['/'] + path
            },
            Some(SubApiView::Rev(rest)) => {
                let path = path::join(seq!["v0"@, "rev"@] + rest, '/');
                s == path || s == seq!['/'] + path
            },
            None => true,
        },
{
    let below = route::below_root(s);
    let parts = path::split(below, '/');
    split_then_join(below);
    assert(s == below || s =~= seq!['/'] + below);
    match route::sub_route(s) {
        Some(SubApiView::Crc(rest)) => {
            assert(parts =~= seq!["v0"@, "crc"@] + rest);
        },
        Some(SubApiView::Rev(rest)) => {
            assert(parts =~= seq!["v0"@, "rev"@] + rest);
        },
        None => {},
    }
}

/// A route that was read holds the texts of the path: the name and the key as they were found.
pub proof fn routes_hold_their_texts(
    name: &str,
    key: &str,
    rest: Parts<'_>,
    r: Result<ApiRoute<'_>, ()>,
    found: Option<ApiRouteView>,
)
    ensures
        ApiRoute::Tables@ == ApiRouteView::Tables,
        ApiRoute::TableByName(name)@ == ApiRouteView::TableByName(name@),
        ApiRoute::AllTableRows(name)@ == ApiRouteView::AllTableRows(name@),
        ApiRoute::TableRowsByPK(name, key)@ == ApiRouteView::TableRowsByPK(name@, key@),
        ApiRoute::Locale(rest)@ == ApiRouteView::Locale(rest@),
        ApiRoute::OpenApiV0@ == ApiRouteView::OpenApiV0,
        SubApi::Crc(rest)@ == SubApiView::Crc(rest@),
        SubApi::Rev(rest)@ == SubApiView::Rev(rest@),
        route::routed(r, found) ==> (r is Err <==> found is None),
        route::routed(r, found) && r is Ok ==> found == Some((r->Ok_0)@),
{
}

} // verus!
