//! What a request path asks for.
use vstd::prelude::*;

use crate::path;
use crate::path::Parts;

verus! {

/// The resources of the API.
#[derive(Clone, Copy, Debug)]
pub enum ApiRoute<'r> {
    /// The names of all tables.
    Tables,
    /// The definition of the table with this name.
    TableByName(&'r str),
    /// All rows of the table with this name.
    AllTableRows(&'r str),
    /// The rows of the table with this name whose primary key is written so.
    TableRowsByPK(&'r str, &'r str),
    /// The node of the locale tree that the remaining parts lead to.
    Locale(Parts<'r>),
    /// The description of the API.
    OpenApiV0,
}

/// [`ApiRoute`] over the characters of its texts.
pub ghost enum ApiRouteView {
    Tables,
    TableByName(Seq<char>),
    AllTableRows(Seq<char>),
    TableRowsByPK(Seq<char>, Seq<char>),
    Locale(Seq<Seq<char>>),
    OpenApiV0,
}

impl<'r> View for ApiRoute<'r> {
    type V = ApiRouteView;

    open spec fn view(&self) -> ApiRouteView {
        match self {
            ApiRoute::Tables => ApiRouteView::Tables,
            ApiRoute::TableByName(name) => ApiRouteView::TableByName(name@),
            ApiRoute::AllTableRows(name) => ApiRouteView::AllTableRows(name@),
            ApiRoute::TableRowsByPK(name, key) => ApiRouteView::TableRowsByPK(name@, key@),
            ApiRoute::Locale(rest) => ApiRouteView::Locale(rest@),
            ApiRoute::OpenApiV0 => ApiRouteView::OpenApiV0,
        }
    }
}

/// What the parts below `v0` stand for, if anything.
pub open spec fn v0_route(parts: Seq<Seq<char>>) -> Option<ApiRouteView> {
    if parts.len() == 0 {
        None
    } else if parts[0] == "tables"@ {
        if parts.len() == 1 {
            Some(ApiRouteView::Tables)
        } else if parts.len() == 2 || (parts.len() == 3 && parts[2] == "def"@) {
            Some(ApiRouteView::TableByName(parts[1]))
        } else if parts.len() == 3 && parts[2] == "all"@ {
            Some(ApiRouteView::AllTableRows(parts[1]))
        } else if parts.len() == 3 {
            Some(ApiRouteView::TableRowsByPK(parts[1], parts[2]))
        } else {
            None
        }
    } else if parts[0] == "locale"@ {
        Some(ApiRouteView::Locale(parts.drop_first()))
    } else if parts[0] == "openapi.json"@ && parts.len() == 1 {
        Some(ApiRouteView::OpenApiV0)
    } else {
        None
    }
}

/// What the parts below `v1` stand for, if anything.
pub open spec fn v1_route(parts: Seq<Seq<char>>) -> Option<ApiRouteView> {
    if parts == seq!["tables"@] {
        Some(ApiRouteView::Tables)
    } else {
        None
    }
}

/// What a whole path stands for, if anything.
pub open spec fn route(s: Seq<char>) -> Option<ApiRouteView> {
    let parts = path::split(path::trim_start(s, '/'), '/');
    if parts[0] == "v0"@ {
        v0_route(parts.drop_first())
    } else if parts[0] == "v1"@ {
        v1_route(parts.drop_first())
    } else {
        None
    }
}

/// A parse gives the route `found`, or an error where there is none.
pub open spec fn routed(r: Result<ApiRoute<'_>, ()>, found: Option<ApiRouteView>) -> bool {
    match r {
        Ok(route) => found == Some(route@),
        Err(_) => found is None,
    }
}

impl<'r> ApiRoute<'r> {
    /// The route that the parts below `v0` stand for.
    pub fn v0(parts: Parts<'r>) -> (r: Result<Self, ()>)
        ensures
            routed(r, v0_route(parts@)),
            r is Ok <==> v0_route(parts@) is Some,
            r matches Ok(x) ==> v0_route(parts@) == Some(x@),
    {
        let mut parts: Parts<'r> = parts;
        let first: &'r str = match parts.next() {
            None => {
                return Err(());
            },
            Some(p) => p,
        };
        if path::same_text(first, "tables") {
            let name: &'r str = match parts.next() {
                None => {
                    return Ok(ApiRoute::Tables);
                },
                Some(p) => p,
            };
            let third: &'r str = match parts.next() {
                None => {
                    return Ok(ApiRoute::TableByName(name));
                },
                Some(p) => p,
            };
            if parts.next().is_some() {
                return Err(());
            }
            if path::same_text(third, "def") {
                Ok(ApiRoute::TableByName(name))
            } else if path::same_text(third, "all") {
                Ok(ApiRoute::AllTableRows(name))
            } else {
                Ok(ApiRoute::TableRowsByPK(name, third))
            }
        } else if path::same_text(first, "locale") {
            Ok(ApiRoute::Locale(parts))
        } else if path::same_text(first, "openapi.json") {
            match parts.next() {
                None => Ok(ApiRoute::OpenApiV0),
                Some(_) => Err(()),
            }
        } else {
            Err(())
        }
    }

    /// The route that the parts below `v1` stand for.
    pub fn v1(parts: Parts<'r>) -> (r: Result<Self, ()>)
        ensures
            routed(r, v1_route(parts@)),
            r is Ok <==> v1_route(parts@) is Some,
            r matches Ok(x) ==> v1_route(parts@) == Some(x@),
    {
        let ghost all = parts@;
        let mut parts: Parts<'r> = parts;
        match parts.next() {
            None => Err(()),
            Some(first) => {
                if path::same_text(first, "tables") {
                    match parts.next() {
                        None => {
                            assert(all =~= seq!["tables"@]);
                            Ok(ApiRoute::Tables)
                        },
                        Some(_) => Err(()),
                    }
                } else {
                    Err(())
                }
            },
        }
    }

    /// The route that a request path stands for. Slashes at its start are passed over.
    pub fn from_str(s: &'r str) -> (r: Result<Self, ()>)
        ensures
            routed(r, route(s@)),
            r is Ok <==> route(s@) is Some,
            r matches Ok(x) ==> route(s@) == Some(x@),
    {
        let mut parts: Parts<'r> = Parts::new(path::trim_slashes(s));
        match parts.next() {
            None => Err(()),
            Some(version) => {
                if path::same_text(version, "v0") {
                    Self::v0(parts)
                } else if path::same_text(version, "v1") {
                    Self::v1(parts)
                } else {
                    Err(())
                }
            },
        }
    }
}

/// The key in a request path: the text that stands for the primary key, where the path asks for the
/// rows with one.
pub fn key_text<'r>(s: &'r str) -> (r: Option<&'r str>)
    ensures
        match route(s@) {
            Some(ApiRouteView::TableRowsByPK(_, key)) => r matches Some(k) && k@ == key,
            _ => r is None,
        },
{
    match ApiRoute::from_str(s) {
        Ok(ApiRoute::TableRowsByPK(_, key)) => Some(key),
        _ => None,
    }
}

/// The parts of the API that stand beside [`ApiRoute`], with the parts of the path below each.
#[derive(Clone, Copy, Debug)]
pub enum SubApi<'r> {
    /// The lookup of files by checksum.
    Crc(Parts<'r>),
    /// The reverse lookups.
    Rev(Parts<'r>),
}

/// [`SubApi`] over the characters of its texts.
pub ghost enum SubApiView {
    Crc(Seq<Seq<char>>),
    Rev(Seq<Seq<char>>),
}

impl<'r> View for SubApi<'r> {
    type V = SubApiView;

    open spec fn view(&self) -> SubApiView {
        match self {
            SubApi::Crc(rest) => SubApiView::Crc(rest@),
            SubApi::Rev(rest) => SubApiView::Rev(rest@),
        }
    }
}

/// `s` without its first character, where that is a slash.
pub open spec fn below_root(s: Seq<char>) -> Seq<char> {
    if s.len() > 0 && s[0] == '/' {
        s.drop_first()
    } else {
        s
    }
}

/// The part of the API that a path leads to, if any.
pub open spec fn sub_route(s: Seq<char>) -> Option<SubApiView> {
    let parts = path::split(below_root(s), '/');
    if parts.len() < 2 || parts[0] != "v0"@ {
        None
    } else if parts[1] == "crc"@ {
        Some(SubApiView::Crc(parts.skip(2)))
    } else if parts[1] == "rev"@ {
        Some(SubApiView::Rev(parts.skip(2)))
    } else {
        None
    }
}

/// The part of the API that a request path leads to, where there is one. One slash at its start is
/// passed over.
pub fn sub_api<'r>(s: &'r str) -> (r: Option<SubApi<'r>>)
    ensures
        match r {
            Some(api) => sub_route(s@) == Some(api@),
            None => sub_route(s@) is None,
        },
{
    let mut parts: Parts<'r> = Parts::new(path::trim_slash(s));
    let ghost all = parts@;
    let version: &'r str = match parts.next() {
        None => {
            return None;
        },
        Some(p) => p,
    };
    if !path::same_text(version, "v0") {
        return None;
    }
    let name: &'r str = match parts.next() {
        None => {
            return None;
        },
        Some(p) => p,
    };
    assert(parts@ =~= all.skip(2));
    if path::same_text(name, "crc") {
        Some(SubApi::Crc(parts))
    } else if path::same_text(name, "rev") {
        Some(SubApi::Rev(parts))
    } else {
        None
    }
}

} // verus!
