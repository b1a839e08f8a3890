use vstd::prelude::*;
use vstd::string::*;

use crate::bytes::{decimal_string, decimal_text};
use crate::decode::{header_get, key_index};
use crate::message::{Request, headers_view};

verus! {

/// Where the server serves from, and the name it answers to.
pub struct ServerInfo {
    pub root: String,
    pub host: String,
    pub port: u16,
}

/// The name of the header that names the host a request is for.
pub open spec fn host_name() -> Seq<char> {
    "Host"@
}

/// The path of the file that holds the page for status `code`.
pub open spec fn error_page(code: u32) -> Seq<char> {
    ".errors/"@ + decimal_text(code as nat) + ".html"@
}

/// The path of the page for status `code`, under the root.
pub fn get_filepath_from_code(code: u32) -> (r: String)
    ensures
        r@ == error_page(code),
{
    let s = String::from_str(".errors/");
    let d = decimal_string(code as u64);
    let s = s.concat(d.as_str());
    s.concat(".html")
}

impl ServerInfo {
    /// Server settings from their parts.
    pub fn new(root: String, host: String, port: u16) -> (r: ServerInfo)
        ensures
            r.root@ == root@,
            r.host@ == host@,
            r.port == port,
    {
        ServerInfo { root, host, port }
    }

    /// `pathstr` under the root directory.
    pub fn path(&self, pathstr: &str) -> (r: String)
        ensures
            r@ == self.root@ + "/"@ + pathstr@,
    {
        let s = self.root.clone();
        let s = s.concat("/");
        s.concat(pathstr)
    }

    /// Whether `host` names this server: its host name, alone or with its port.
    pub fn host_check(&self, host: &str) -> (r: bool)
        ensures
            r == (host@ == self.host@ || host@ == self.host@ + ":"@ + decimal_text(self.port as nat)),
    {
        let given = String::from_str(host);
        let with_port = self.host.clone().concat(":").concat(decimal_string(self.port as u64).as_str());
        given == self.host || given == with_port
    }

    /// Whether a request names this server in its `Host` header.
    pub fn accepts(&self, request: &Request) -> (r: bool)
        ensures
            r == (match header_get(headers_view(request.headers@), host_name()) {
                Some(h) => h == self.host@ || h == self.host@ + ":"@ + decimal_text(
                    self.port as nat,
                ),
                None => false,
            }),
    {
        let name = String::from_str("Host");
        assert(name@ == host_name());
        let mut j: usize = 0;
        let ghost hv = headers_view(request.headers@);
        while j < request.headers.len()
            invariant
                j <= request.headers@.len(),
                hv == headers_view(request.headers@),
                name@ == host_name(),
                key_index(hv, name@, j as int) == key_index(hv, name@, 0),
            decreases request.headers@.len() - j,
        {
            assert(hv[j as int] == (request.headers@[j as int].0@, request.headers@[j as int].1@));
            if request.headers[j].0 == name {
                assert(key_index(hv, name@, 0) == j);
                assert(header_get(hv, host_name()) == Some(hv[j as int].1));
                return self.host_check(request.headers[j].1.as_str());
            }
            j = j + 1;
        }
        assert(header_get(hv, host_name()) is None);
        false
    }

    /// The file that answers a request for `resource`: the resource itself,
    /// or the `index.html` inside it when it is a directory.
    pub fn target(&self, resource: &str, is_dir: bool) -> (r: String)
        ensures
            r@ == (if is_dir {
                self.root@ + "/"@ + resource@ + "/index.html"@
            } else {
                self.root@ + "/"@ + resource@
            }),
    {
        if is_dir {
            let inner = String::from_str(resource).concat("/index.html");
            let r = self.path(inner.as_str());
            assert(r@ =~= self.root@ + "/"@ + resource@ + "/index.html"@);
            r
        } else {
            self.path(resource)
        }
    }
}

} // verus!
