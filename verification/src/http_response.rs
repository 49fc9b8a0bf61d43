use vstd::prelude::*;
use crate::text::{dec_digits, usize_to_string};

verus! {

pub const HTTP_OK: u16 = 200;
pub const HTTP_CREATED: u16 = 201;
pub const HTTP_ACCEPTED: u16 = 202;
/// Shares its numeric code with `HTTP_NOT_FOUND`, so a 404 response renders
/// with this phrase.
pub const HTTP_NO_CONTENT: u16 = 404;
pub const HTTP_BAD_REQUEST: u16 = 400;
pub const HTTP_UNAUTHORIZED: u16 = 401;
pub const HTTP_FORBIDDEN: u16 = 403;
pub const HTTP_NOT_FOUND: u16 = 404;
pub const HTTP_METHOD_NOT_ALLOWED: u16 = 405;
pub const HTTP_INTERNAL_SERVER_ERROR: u16 = 500;
pub const HTTP_NOT_IMPLEMENTED: u16 = 501;

/// One response header line.
pub struct HttpHeader {
    pub name: String,
    pub value: String,
}

/// A minimal HTTP response: status code, header lines, and a text body.
pub struct HttpResponse {
    pub code: u16,
    pub headers: Vec<HttpHeader>,
    pub data: String,
}

/// The reason phrase rendered next to a status code.
pub open spec fn reason_phrase(code: u16) -> Seq<char> {
    if code == 200 {
        "OK"@
    } else if code == 201 {
        "Created"@
    } else if code == 202 {
        "Accepted"@
    } else if code == 404 {
        "No Content"@
    } else if code == 400 {
        "Bad Request"@
    } else if code == 401 {
        "Unauthorized"@
    } else if code == 403 {
        "Forbidden"@
    } else if code == 405 {
        "Method Not Allowed"@
    } else if code == 501 {
        "Not Implemented"@
    } else {
        "Internal Server Error"@
    }
}

/// The header block rendered one `name: value` line at a time, in order.
pub open spec fn header_lines(headers: Seq<HttpHeader>) -> Seq<char>
    decreases headers.len(),
{
    if headers.len() == 0 {
        Seq::empty()
    } else {
        header_lines(headers.drop_last()) + headers.last().name@ + ": "@ + headers.last().value@
            + "\r\n"@
    }
}

impl HttpResponse {
    /// The full wire rendering: status line, header block, a blank line,
    /// and the body followed by a final line break.
    pub open spec fn rendered(&self) -> Seq<char> {
        "HTTP/1.1 "@ + dec_digits(self.code as nat) + " "@ + reason_phrase(self.code) + "\r\n"@
            + header_lines(self.headers@) + "\r\n"@ + self.data@ + "\r\n"@
    }

    pub fn new(code: u16, data: &str) -> (r: HttpResponse)
        ensures
            r.code == code,
            r.headers@.len() == 0,
            r.data@ == data@,
    {
        HttpResponse { code, headers: Vec::new(), data: data.to_owned() }
    }

    pub fn new_with_headers(code: u16, headers: Vec<HttpHeader>, data: &str) -> (r: HttpResponse)
        ensures
            r.code == code,
            r.headers@ == headers@,
            r.data@ == data@,
    {
        HttpResponse { code, headers, data: data.to_owned() }
    }

    /// Sets a header: an existing line with this name (the first such line)
    /// gets the new value, otherwise a line is appended.
    pub fn append_header(&mut self, name: &str, value: &str)
        ensures
            final(self).code == old(self).code,
            final(self).data@ == old(self).data@,
            (exists|i: int|
                0 <= i < old(self).headers@.len() && (#[trigger] old(self).headers@[i]).name@
                    == name@) ==> exists|i: int|
                0 <= i < old(self).headers@.len() && (#[trigger] old(self).headers@[i]).name@
                    == name@ && (forall|j: int|
                    0 <= j < i ==> (#[trigger] old(self).headers@[j]).name@ != name@) && final(self).headers@.len() == old(self).headers@.len() && final(self).headers@[i].name@
                    == name@ && final(self).headers@[i].value@ == value@ && (forall|j: int|
                    0 <= j < old(self).headers@.len() && j != i ==> final(self).headers@[j] == old(self).headers@[j]),
            !(exists|i: int|
                0 <= i < old(self).headers@.len() && (#[trigger] old(self).headers@[i]).name@
                    == name@) ==> final(self).headers@.len() == old(self).headers@.len() + 1
                && final(self).headers@[old(self).headers@.len() as int].name@ == name@ && final(self).headers@[old(self).headers@.len() as int].value@ == value@ && (forall|j: int|
                0 <= j < old(self).headers@.len() ==> final(self).headers@[j] == old(self).headers@[j]),
    {
        let name_owned = name.to_owned();
        let n = self.headers.len();
        let mut i: usize = 0;
        while i < n
            invariant
                n == self.headers@.len(),
                0 <= i <= n,
                name_owned@ == name@,
                self.headers@ == old(self).headers@,
                self.code == old(self).code,
                self.data@ == old(self).data@,
                forall|j: int| 0 <= j < i ==> (#[trigger] self.headers@[j]).name@ != name@,
            decreases n - i,
        {
            if self.headers[i].name == name_owned {
                let header = &mut self.headers[i];
                header.value = value.to_owned();
                proof {
                    assert(old(self).headers@[i as int].name@ == name@);
                }
                return ;
            }
            i += 1;
        }
        self.headers.push(HttpHeader { name: name_owned, value: value.to_owned() });
    }

    /// Whether the status code counts as a success.
    pub fn is_successful(&self) -> (r: bool)
        ensures
            r == (200 <= self.code < 299),
    {
        self.code >= 200 && self.code < 299
    }

    /// Renders the response for the wire.
    pub fn to_string(&self) -> (s: String)
        ensures
            s@ == self.rendered(),
    {
        let mut s = "HTTP/1.1 ".to_owned();
        s.append(usize_to_string(self.code as usize).as_str());
        s.append(" ");
        let detail: &str = if self.code == HTTP_OK {
            "OK"
        } else if self.code == HTTP_CREATED {
            "Created"
        } else if self.code == HTTP_ACCEPTED {
            "Accepted"
        } else if self.code == HTTP_NO_CONTENT {
            "No Content"
        } else if self.code == HTTP_BAD_REQUEST {
            "Bad Request"
        } else if self.code == HTTP_UNAUTHORIZED {
            "Unauthorized"
        } else if self.code == HTTP_FORBIDDEN {
            "Forbidden"
        } else if self.code == HTTP_METHOD_NOT_ALLOWED {
            "Method Not Allowed"
        } else if self.code == HTTP_NOT_IMPLEMENTED {
            "Not Implemented"
        } else {
            "Internal Server Error"
        };
        s.append(detail);
        s.append("\r\n");
        proof {
            assert(detail@ == reason_phrase(self.code));
            assert(s@ =~= "HTTP/1.1 "@ + dec_digits(self.code as nat) + " "@ + reason_phrase(
                self.code,
            ) + "\r\n"@);
        }
        let ghost status = s@;
        let n = self.headers.len();
        let mut i: usize = 0;
        while i < n
            invariant
                n == self.headers@.len(),
                0 <= i <= n,
                s@ == status + header_lines(self.headers@.subrange(0, i as int)),
            decreases n - i,
        {
            s.append(self.headers[i].name.as_str());
            s.append(": ");
            s.append(self.headers[i].value.as_str());
            s.append("\r\n");
            i += 1;
            proof {
                let pre = self.headers@.subrange(0, i - 1);
                let cur = self.headers@.subrange(0, i as int);
                assert(cur.drop_last() =~= pre);
                assert(cur.last() == self.headers@[i - 1]);
                assert(s@ =~= status + header_lines(cur));
            }
        }
        proof {
            assert(self.headers@.subrange(0, n as int) =~= self.headers@);
        }
        s.append("\r\n");
        s.append(self.data.as_str());
        s.append("\r\n");
        proof {
            assert(s@ =~= self.rendered());
        }
        s
    }
}

} // verus!
