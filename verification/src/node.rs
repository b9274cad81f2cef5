//! Nodes, their URLs and authentication, and health-info snapshots.

use vstd::prelude::*;
use vstd::string::StringExecFns;

verus! {

/// The parts of an endpoint URL that the selection logic reads and writes.
///
/// A node's identity is its URL: two registered nodes with equal URLs are one
/// node for de-duplication, whatever their auth or flags.
#[derive(Debug)]
pub struct Url {
    pub scheme: String,
    pub host: String,
    pub port: Option<u16>,
    pub path: String,
    pub query: Option<String>,
    pub username: String,
    pub password: Option<String>,
}

/// Mathematical value of a [`Url`].
#[verifier::ext_equal]
pub struct UrlV {
    pub scheme: Seq<char>,
    pub host: Seq<char>,
    pub port: Option<u16>,
    pub path: Seq<char>,
    pub query: Option<Seq<char>>,
    pub username: Seq<char>,
    pub password: Option<Seq<char>>,
}

/// View of an optional string as an optional character sequence.
pub open spec fn opt_view(o: Option<String>) -> Option<Seq<char>> {
    match o {
        Some(s) => Some(s@),
        None => None,
    }
}

/// View of an optional borrowed string as an optional character sequence.
pub open spec fn opt_str_view(o: Option<&str>) -> Option<Seq<char>> {
    match o {
        Some(s) => Some(s@),
        None => None,
    }
}

impl View for Url {
    type V = UrlV;

    open spec fn view(&self) -> UrlV {
        UrlV {
            scheme: self.scheme@,
            host: self.host@,
            port: self.port,
            path: self.path@,
            query: opt_view(self.query),
            username: self.username@,
            password: opt_view(self.password),
        }
    }
}

/// Per-node authentication: optional basic-auth pair and optional JWT.
#[derive(Debug)]
pub struct NodeAuth {
    pub basic_auth_name_pwd: Option<(String, String)>,
    pub jwt: Option<String>,
}

/// Mathematical value of a [`NodeAuth`].
#[verifier::ext_equal]
pub struct NodeAuthV {
    pub basic_auth_name_pwd: Option<(Seq<char>, Seq<char>)>,
    pub jwt: Option<Seq<char>>,
}

impl View for NodeAuth {
    type V = NodeAuthV;

    open spec fn view(&self) -> NodeAuthV {
        NodeAuthV {
            basic_auth_name_pwd: match self.basic_auth_name_pwd {
                Some(p) => Some((p.0@, p.1@)),
                None => None,
            },
            jwt: opt_view(self.jwt),
        }
    }
}

/// A remote ledger endpoint: URL identity, optional auth, a disabled flag.
#[derive(Debug)]
pub struct Node {
    pub url: Url,
    pub auth: Option<NodeAuth>,
    pub disabled: bool,
}

/// Mathematical value of a [`Node`].
#[verifier::ext_equal]
pub struct NodeV {
    pub url: UrlV,
    pub auth: Option<NodeAuthV>,
    pub disabled: bool,
}

impl View for Node {
    type V = NodeV;

    open spec fn view(&self) -> NodeV {
        NodeV {
            url: self.url@,
            auth: match self.auth {
                Some(a) => Some(a@),
                None => None,
            },
            disabled: self.disabled,
        }
    }
}

/// A node's last successful info response; presence in the health snapshot
/// means the node is considered healthy. Only the advertised feature list is
/// read by the selection logic.
#[derive(Debug)]
pub struct InfoResponse {
    pub features: Vec<String>,
}

impl InfoResponse {
    /// Whether the node advertises the remote proof-of-work feature.
    pub open spec fn spec_advertises_pow(&self) -> bool {
        exists|i: int| 0 <= i < self.features@.len() && #[trigger] self.features@[i]@ == "pow"@
    }

    /// Scans the advertised features for the remote proof-of-work feature.
    pub fn advertises_pow(&self) -> (r: bool)
        ensures
            r == self.spec_advertises_pow(),
    {
        let mut i: usize = 0;
        while i < self.features.len()
            invariant
                0 <= i <= self.features@.len(),
                forall|j: int| 0 <= j < i ==> #[trigger] self.features@[j]@ != "pow"@,
            decreases self.features@.len() - i,
        {
            if str_eq(self.features[i].as_str(), "pow") {
                return true;
            }
            i += 1;
        }
        false
    }
}

/// Compares two strings by their characters.
pub fn str_eq(a: &str, b: &str) -> (r: bool)
    ensures
        r == (a@ == b@),
{
    let x = a.to_owned();
    let y = b.to_owned();
    x == y
}

impl Clone for Url {
    fn clone(&self) -> (r: Self)
        ensures
            r == *self,
    {
        Url {
            scheme: self.scheme.clone(),
            host: self.host.clone(),
            port: self.port,
            path: self.path.clone(),
            query: clone_opt_string(&self.query),
            username: self.username.clone(),
            password: clone_opt_string(&self.password),
        }
    }
}

impl Clone for NodeAuth {
    fn clone(&self) -> (r: Self)
        ensures
            r == *self,
    {
        NodeAuth {
            basic_auth_name_pwd: match &self.basic_auth_name_pwd {
                Some(p) => Some((p.0.clone(), p.1.clone())),
                None => None,
            },
            jwt: clone_opt_string(&self.jwt),
        }
    }
}

impl Clone for Node {
    fn clone(&self) -> (r: Self)
        ensures
            r == *self,
    {
        Node {
            url: self.url.clone(),
            auth: match &self.auth {
                Some(a) => Some(a.clone()),
                None => None,
            },
            disabled: self.disabled,
        }
    }
}

/// Clones an optional string, keeping its value.
fn clone_opt_string(o: &Option<String>) -> (r: Option<String>)
    ensures
        r == *o,
{
    match o {
        Some(s) => Some(s.clone()),
        None => None,
    }
}

impl Url {
    /// Builds a bare endpoint URL with empty path, no query and no
    /// credentials.
    pub fn new(scheme: String, host: String, port: Option<u16>) -> (r: Url)
        ensures
            r@.scheme == scheme@,
            r@.host == host@,
            r@.port == port,
            r@.path == Seq::<char>::empty(),
            r@.query == Option::<Seq<char>>::None,
            r@.username == Seq::<char>::empty(),
            r@.password == Option::<Seq<char>>::None,
    {
        Url {
            scheme,
            host,
            port,
            path: String::new(),
            query: None,
            username: String::new(),
            password: None,
        }
    }

    /// Compares two URLs by value; this is node identity.
    pub fn same_as(&self, other: &Url) -> (r: bool)
        ensures
            r == (self@ == other@),
    {
        let r = self.scheme == other.scheme && self.host == other.host
            && opt_u16_eq(&self.port, &other.port) && self.path == other.path
            && opt_string_eq(&self.query, &other.query) && self.username == other.username
            && opt_string_eq(&self.password, &other.password);
        proof {
            if r {
                assert(self@ == other@);
            }
        }
        r
    }

    /// The request origin, scheme and host joined as `scheme://host`.
    pub fn origin(&self) -> (r: String)
        ensures
            r@ == self@.scheme + "://"@ + self@.host,
    {
        let mut s = self.scheme.clone();
        s.append("://");
        s.append(self.host.as_str());
        s
    }
}

/// Compares two optional ports.
fn opt_u16_eq(a: &Option<u16>, b: &Option<u16>) -> (r: bool)
    ensures
        r == (*a == *b),
{
    match (a, b) {
        (Some(x), Some(y)) => *x == *y,
        (None, None) => true,
        _ => false,
    }
}

/// Compares two optional strings by their characters.
fn opt_string_eq(a: &Option<String>, b: &Option<String>) -> (r: bool)
    ensures
        r == (opt_view(*a) == opt_view(*b)),
{
    match (a, b) {
        (Some(x), Some(y)) => {
            let r = x.eq(y);
            proof {
                assert(opt_view(*a) == Some(x@));
                assert(opt_view(*b) == Some(y@));
            }
            r
        },
        (None, None) => true,
        _ => false,
    }
}

/// A node's URL after the request target is set: the given path and query
/// replace the URL's own, and basic-auth credentials, if configured, are
/// injected into the URL.
pub open spec fn with_target(n: NodeV, path: Seq<char>, query: Option<Seq<char>>) -> NodeV {
    NodeV {
        url: UrlV {
            path: path,
            query: query,
            username: match n.auth {
                Some(a) => match a.basic_auth_name_pwd {
                    Some(p) => p.0,
                    None => n.url.username,
                },
                None => n.url.username,
            },
            password: match n.auth {
                Some(a) => match a.basic_auth_name_pwd {
                    Some(p) => Some(p.1),
                    None => n.url.password,
                },
                None => n.url.password,
            },
            ..n.url
        },
        ..n
    }
}

impl Node {
    /// A node with the given URL, no auth, enabled.
    pub fn new(url: Url) -> (r: Node)
        ensures
            r@.url == url@,
            r@.auth == Option::<NodeAuthV>::None,
            !r@.disabled,
    {
        Node { url, auth: None, disabled: false }
    }

    /// Consumes the node and materializes the per-request URL: sets the path
    /// and query and injects configured basic-auth credentials.
    pub fn into_target(self, path: &str, query: Option<&str>) -> (r: Node)
        ensures
            r@ == with_target(self@, path@, opt_str_view(query)),
    {
        let mut node = self;
        node.url.path = path.to_owned();
        node.url.query = match query {
            Some(q) => Some(q.to_owned()),
            None => None,
        };
        match &node.auth {
            Some(auth) => match &auth.basic_auth_name_pwd {
                Some(pair) => {
                    node.url.username = pair.0.clone();
                    node.url.password = Some(pair.1.clone());
                },
                None => {},
            },
            None => {},
        }
        proof {
            assert(node@ =~= with_target(self@, path@, opt_str_view(query)));
        }
        node
    }
}

} // verus!
