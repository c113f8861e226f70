use vstd::prelude::*;
use crate::discovery::IpAddress;

verus! {

/// What the proxy reads of a request: its method, target, host, headers and
/// the address of the client connection.
pub struct RequestInfo {
    pub method: String,
    /// The target as received: the path and, after `?`, the query.
    pub uri: String,
    pub path: String,
    pub query: Option<String>,
    pub host: String,
    pub headers: Vec<(String, String)>,
    /// The IP of the peer of the client connection, if known.
    pub remote_ip: Option<String>,
    /// The address of the peer of the client connection, if known.
    pub client_addr: Option<IpAddress>,
    /// Whether the request came over TLS.
    pub tls: bool,
}

pub open spec fn lower_ascii(c: char) -> char {
    if 'A' <= c && c <= 'Z' {
        (((c as u32) + 32) as u8) as char
    } else {
        c
    }
}

/// Equality of header names: ASCII letters compare without case.
pub open spec fn same_name(a: Seq<char>, b: Seq<char>) -> bool {
    a.len() == b.len() && forall|i: int| 0 <= i < a.len() ==> lower_ascii(#[trigger] a[i]) == lower_ascii(b[i])
}

fn lower_char(c: char) -> (r: char)
    ensures
        r == lower_ascii(c),
{
    if 'A' <= c && c <= 'Z' {
        (((c as u32) + 32) as u8) as char
    } else {
        c
    }
}

/// Whether two header names are equal, ignoring ASCII case.
pub fn eq_ignore_case(a: &str, b: &str) -> (r: bool)
    ensures
        r == same_name(a@, b@),
{
    let n = a.unicode_len();
    if n != b.unicode_len() {
        return false;
    }
    let mut i: usize = 0;
    while i < n
        invariant
            n == a@.len() == b@.len(),
            i <= n,
            forall|k: int| 0 <= k < i ==> lower_ascii(#[trigger] a@[k]) == lower_ascii(b@[k]),
        decreases n - i,
    {
        if lower_char(a.get_char(i)) != lower_char(b.get_char(i)) {
            return false;
        }
        i = i + 1;
    }
    true
}

/// The index of the first header named `name`, ignoring case.
pub open spec fn header_index(headers: Seq<(String, String)>, name: Seq<char>) -> Option<int> {
    if exists|i: int| 0 <= i < headers.len() && same_name(#[trigger] headers[i].0@, name) {
        Some(choose|i: int| 0 <= i < headers.len() && same_name(#[trigger] headers[i].0@, name)
            && forall|k: int| 0 <= k < i ==> !same_name(#[trigger] headers[k].0@, name))
    } else {
        None
    }
}

/// The value of the first header named `name`, ignoring case.
pub open spec fn header_value(headers: Seq<(String, String)>, name: Seq<char>) -> Option<Seq<char>> {
    match header_index(headers, name) {
        Some(i) => Some(headers[i].1@),
        None => None,
    }
}

/// The value of the first header named `name`, ignoring case.
pub fn get_req_header_value(headers: &Vec<(String, String)>, name: &str) -> (r: Option<String>)
    ensures
        r is Some <==> header_value(headers@, name@) is Some,
        r is Some ==> r->Some_0@ == header_value(headers@, name@)->Some_0,
{
    let mut i: usize = 0;
    while i < headers.len()
        invariant
            i <= headers@.len(),
            forall|k: int| 0 <= k < i ==> !same_name(#[trigger] headers@[k].0@, name@),
        decreases headers@.len() - i,
    {
        if eq_ignore_case(headers[i].0.as_str(), name) {
            let ghost j = header_index(headers@, name@)->Some_0;
            assert(same_name(headers@[i as int].0@, name@));
            proof {
                let j = choose|j: int| 0 <= j < headers@.len() && same_name(#[trigger] headers@[j].0@, name@)
                    && forall|k: int| 0 <= k < j ==> !same_name(#[trigger] headers@[k].0@, name@);
                assert(0 <= j < headers@.len() && same_name(headers@[j].0@, name@) && forall|k: int| 0 <= k < j ==> !same_name(#[trigger] headers@[k].0@, name@)) by {
                    assert(0 <= i < headers@.len() && same_name(headers@[i as int].0@, name@) && forall|k: int| 0 <= k < i ==> !same_name(#[trigger] headers@[k].0@, name@));
                }
                if j < i {
                } else if j > i {
                    assert(!same_name(headers@[i as int].0@, name@));
                }
                assert(j == i);
            }
            return Some(headers[i].1.clone());
        }
        i = i + 1;
    }
    None
}

/// The index of the first `c` in `s`, or its length.
pub open spec fn first_index(s: Seq<char>, c: char) -> int
    decreases s.len(),
{
    if s.len() == 0 {
        0
    } else if s[0] == c {
        0
    } else {
        1 + first_index(s.subrange(1, s.len() as int), c)
    }
}

pub proof fn lemma_first_index(s: Seq<char>, c: char, k: int)
    requires
        0 <= k <= s.len(),
        k < s.len() ==> s[k] == c,
        forall|i: int| 0 <= i < k ==> s[i] != c,
    ensures
        first_index(s, c) == k,
    decreases k,
{
    if k > 0 {
        let t = s.subrange(1, s.len() as int);
        assert forall|i: int| 0 <= i < k - 1 implies t[i] != c by {
            assert(t[i] == s[i + 1]);
        }
        lemma_first_index(t, c, k - 1);
    }
}

/// `s` without its leading spaces.
pub open spec fn trim_start(s: Seq<char>) -> Seq<char>
    decreases s.len(),
{
    if s.len() > 0 && s[0] == ' ' {
        trim_start(s.subrange(1, s.len() as int))
    } else {
        s
    }
}

/// The value of a `name=value` item, when `item` is one for `name`.
pub open spec fn pair_value(item: Seq<char>, name: Seq<char>) -> Option<Seq<char>> {
    let k = first_index(item, '=');
    if k < item.len() && item.subrange(0, k) == name {
        Some(item.subrange(k + 1, item.len() as int))
    } else {
        None
    }
}

/// The value of the first `name=value` item of a list of items separated by
/// `sep`, each item read without its leading spaces.
pub open spec fn item_value(s: Seq<char>, sep: char, name: Seq<char>) -> Option<Seq<char>>
    decreases s.len(),
{
    let j = first_index(s, sep);
    match pair_value(trim_start(s.subrange(0, j)), name) {
        Some(v) => Some(v),
        None => if j < 0 || j >= s.len() {
            None
        } else {
            item_value(s.subrange(j + 1, s.len() as int), sep, name)
        },
    }
}

/// The index of the first `c` in `s` at or after `from`, or its length.
pub fn find_char(s: &str, c: char, from: usize) -> (r: usize)
    requires
        from <= s@.len(),
    ensures
        from <= r <= s@.len(),
        r < s@.len() ==> s@[r as int] == c,
        forall|i: int| from <= i < r ==> s@[i] != c,
{
    let n = s.unicode_len();
    let mut j = from;
    while j < n
        invariant
            n == s@.len(),
            from <= j <= n,
            forall|i: int| from <= i < j ==> s@[i] != c,
        decreases n - j,
    {
        if s.get_char(j) == c {
            return j;
        }
        j = j + 1;
    }
    j
}

/// The index of the first non-space character of `s` at or after `from`,
/// but not past `to`.
fn skip_spaces(s: &str, from: usize, to: usize) -> (r: usize)
    requires
        from <= to <= s@.len(),
    ensures
        from <= r <= to,
        trim_start(s@.subrange(from as int, to as int)) == s@.subrange(r as int, to as int),
{
    let mut j = from;
    while j < to && s.get_char(j) == ' '
        invariant
            from <= j <= to <= s@.len(),
            trim_start(s@.subrange(from as int, to as int)) == trim_start(s@.subrange(j as int, to as int)),
        decreases to - j,
    {
        assert(s@.subrange(j as int, to as int).subrange(1, (to - j) as int) =~= s@.subrange(j + 1, to as int));
        j = j + 1;
    }
    j
}

/// Whether `s[from .. to]` is a `name=value` item for `name`; its value.
fn item_pair(s: &str, from: usize, to: usize, name: &str) -> (r: Option<String>)
    requires
        from <= to <= s@.len(),
    ensures
        r is Some <==> pair_value(s@.subrange(from as int, to as int), name@) is Some,
        r is Some ==> r->Some_0@ == pair_value(s@.subrange(from as int, to as int), name@)->Some_0,
{
    let ghost item = s@.subrange(from as int, to as int);
    let eq = find_char(s, '=', from);
    let k = if eq < to { eq } else { to };
    proof {
        assert forall|i: int| 0 <= i < k - from implies item[i] != '=' by {
            assert(item[i] == s@[from + i]);
        }
        lemma_first_index(item, '=', k - from);
    }
    if k == to {
        return None;
    }
    let key = s.substring_char(from, k);
    assert(key@ =~= item.subrange(0, k - from));
    if key.unicode_len() == name.unicode_len() && keys_equal(key, name) {
        let v = s.substring_char(k + 1, to);
        assert(v@ =~= item.subrange(k - from + 1, item.len() as int));
        Some(v.to_string())
    } else {
        None
    }
}

pub fn keys_equal(a: &str, b: &str) -> (r: bool)
    ensures
        r == (a@ == b@),
{
    let n = a.unicode_len();
    if n != b.unicode_len() {
        return false;
    }
    let mut i: usize = 0;
    while i < n
        invariant
            n == a@.len() == b@.len(),
            i <= n,
            forall|k: int| 0 <= k < i ==> a@[k] == b@[k],
        decreases n - i,
    {
        if a.get_char(i) != b.get_char(i) {
            return false;
        }
        i = i + 1;
    }
    assert(a@ =~= b@);
    true
}

/// The value of the first `name=value` item of `s`, whose items are
/// separated by `sep` and read without their leading spaces.
pub fn get_item_value(s: &str, sep: char, name: &str) -> (r: Option<String>)
    ensures
        r is Some <==> item_value(s@, sep, name@) is Some,
        r is Some ==> r->Some_0@ == item_value(s@, sep, name@)->Some_0,
{
    let n = s.unicode_len();
    let mut i: usize = 0;
    assert(s@.subrange(0, n as int) =~= s@);
    loop
        invariant
            n == s@.len(),
            i <= n,
            item_value(s@, sep, name@) == item_value(s@.subrange(i as int, n as int), sep, name@),
        decreases n - i,
    {
        let ghost t = s@.subrange(i as int, n as int);
        let j = find_char(s, sep, i);
        proof {
            assert forall|k: int| 0 <= k < j - i implies t[k] != sep by {
                assert(t[k] == s@[i + k]);
            }
            lemma_first_index(t, sep, j - i);
            assert(t.subrange(0, j - i) =~= s@.subrange(i as int, j as int));
        }
        let st = skip_spaces(s, i, j);
        match item_pair(s, st, j, name) {
            Some(v) => {
                return Some(v);
            },
            None => {},
        }
        if j >= n {
            return None;
        }
        assert(t.subrange(j - i + 1, t.len() as int) =~= s@.subrange(j + 1, n as int));
        i = j + 1;
    }
}

/// The value of cookie `name` in the `Cookie` header.
pub open spec fn cookie_value(headers: Seq<(String, String)>, name: Seq<char>) -> Option<Seq<char>> {
    match header_value(headers, "Cookie"@) {
        Some(c) => item_value(c, ';', name),
        None => None,
    }
}

/// The value of cookie `name` in the `Cookie` header.
pub fn get_cookie_value(headers: &Vec<(String, String)>, name: &str) -> (r: Option<String>)
    ensures
        r is Some <==> cookie_value(headers@, name@) is Some,
        r is Some ==> r->Some_0@ == cookie_value(headers@, name@)->Some_0,
{
    match get_req_header_value(headers, "Cookie") {
        Some(c) => get_item_value(c.as_str(), ';', name),
        None => None,
    }
}

/// The value of query parameter `name`.
pub open spec fn query_value(query: Option<String>, name: Seq<char>) -> Option<Seq<char>> {
    match query {
        Some(q) => item_value(q@, '&', name),
        None => None,
    }
}

/// The value of query parameter `name`.
pub fn get_query_value(query: &Option<String>, name: &str) -> (r: Option<String>)
    ensures
        r is Some <==> query_value(*query, name@) is Some,
        r is Some ==> r->Some_0@ == query_value(*query, name@)->Some_0,
{
    match query {
        Some(q) => get_item_value(q.as_str(), '&', name),
        None => None,
    }
}

/// The client's IP: the first entry of `X-Forwarded-For`, else
/// `X-Real-Ip`, else the peer of the connection, else empty.
pub open spec fn client_ip(req: RequestInfo) -> Seq<char> {
    match header_value(req.headers@, "X-Forwarded-For"@) {
        Some(v) => v.subrange(0, first_index(v, ',')),
        None => match header_value(req.headers@, "X-Real-Ip"@) {
            Some(v) => v,
            None => match req.remote_ip {
                Some(ip) => ip@,
                None => Seq::empty(),
            },
        },
    }
}

/// The client's IP.
pub fn get_client_ip(req: &RequestInfo) -> (r: String)
    ensures
        r@ == client_ip(*req),
{
    if let Some(v) = get_req_header_value(&req.headers, "X-Forwarded-For") {
        let j = find_char(v.as_str(), ',', 0);
        proof {
            lemma_first_index(v@, ',', j as int);
        }
        return v.as_str().substring_char(0, j).to_string();
    }
    if let Some(v) = get_req_header_value(&req.headers, "X-Real-Ip") {
        return v;
    }
    match &req.remote_ip {
        Some(ip) => ip.clone(),
        None => String::new(),
    }
}

} // verus!
