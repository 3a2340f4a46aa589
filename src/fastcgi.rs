//! FastCGI 1.0 client framing: records, name/value pairs, the CGI
//! environment of a request, and the reply that comes back on STDOUT.
use crate::rewrite::{one_char, pairs_view, path_of, query_of, split_uri};
use crate::text::{
    chars_of, concat, eq_chars, lower, lower_vec, replace_all, replaced, string_of, upper, upper_vec,
};
use vstd::pervasive::VecAdditionalExecFns;
use vstd::prelude::*;
use vstd::utf8::encode_utf8;

verus! {

pub const FCGI_VERSION: u8 = 1;
pub const FCGI_BEGIN_REQUEST: u8 = 1;
pub const FCGI_END_REQUEST: u8 = 3;
pub const FCGI_PARAMS: u8 = 4;
pub const FCGI_STDIN: u8 = 5;
pub const FCGI_STDOUT: u8 = 6;
pub const FCGI_STDERR: u8 = 7;
pub const FCGI_RESPONDER: u16 = 1;
/// The largest content a single record carries.
pub const MAX_CONTENT: usize = 65535;

pub open spec fn zeros(n: nat) -> Seq<u8> {
    Seq::new(n, |i: int| 0u8)
}

/// Padding that brings a content length up to a multiple of eight.
pub open spec fn padding_for(len: nat) -> nat {
    ((8 - (len % 8)) % 8) as nat
}

/// The eight header bytes of a record.
pub open spec fn record_header(record_type: u8, request_id: u16, len: nat) -> Seq<u8> {
    seq![
        FCGI_VERSION,
        record_type,
        (request_id / 256) as u8,
        (request_id % 256) as u8,
        (len / 256) as u8,
        (len % 256) as u8,
        padding_for(len) as u8,
        0u8,
    ]
}

/// A whole record: header, content, padding.
pub open spec fn record(record_type: u8, request_id: u16, content: Seq<u8>) -> Seq<u8> {
    record_header(record_type, request_id, content.len()) + content + zeros(padding_for(content.len()))
}

/// `data` cut into records of at most `MAX_CONTENT` bytes each (no record when `data` is empty).
pub open spec fn chunked_records(record_type: u8, request_id: u16, data: Seq<u8>) -> Seq<u8>
    decreases data.len(),
{
    if data.len() == 0 {
        Seq::empty()
    } else if data.len() <= MAX_CONTENT {
        record(record_type, request_id, data)
    } else {
        record(record_type, request_id, data.take(MAX_CONTENT as int)) + chunked_records(
            record_type,
            request_id,
            data.skip(MAX_CONTENT as int),
        )
    }
}

/// A stream: the data in records, then an empty record that ends it.
pub open spec fn stream(record_type: u8, request_id: u16, data: Seq<u8>) -> Seq<u8> {
    chunked_records(record_type, request_id, data) + record(record_type, request_id, Seq::empty())
}

/// The length prefix of a name or a value: one byte below 128, else four
/// bytes, big-endian, with the high bit set.
pub open spec fn length_bytes(n: nat) -> Seq<u8> {
    if n < 128 {
        seq![n as u8]
    } else {
        seq![
            ((n / 0x1000000) + 128) as u8,
            ((n / 0x10000) % 256) as u8,
            ((n / 256) % 256) as u8,
            (n % 256) as u8,
        ]
    }
}

pub open spec fn pair_bytes(name: Seq<u8>, value: Seq<u8>) -> Seq<u8> {
    length_bytes(name.len()) + length_bytes(value.len()) + name + value
}

pub open spec fn str_bytes(s: String) -> Seq<u8> {
    encode_utf8(s@)
}

pub open spec fn pairs_bytes(params: Seq<(String, String)>) -> Seq<u8>
    decreases params.len(),
{
    if params.len() == 0 {
        Seq::empty()
    } else {
        pairs_bytes(params.drop_last()) + pair_bytes(
            str_bytes(params.last().0),
            str_bytes(params.last().1),
        )
    }
}

/// The BEGIN_REQUEST record of a responder request whose connection closes after it.
pub open spec fn begin_request_bytes(request_id: u16) -> Seq<u8> {
    record(
        FCGI_BEGIN_REQUEST,
        request_id,
        seq![(FCGI_RESPONDER / 256) as u8, (FCGI_RESPONDER % 256) as u8, 0u8, 0u8, 0u8, 0u8, 0u8, 0u8],
    )
}

fn push_zeros(v: &mut Vec<u8>, n: usize)
    ensures
        final(v)@ == old(v)@ + zeros(n as nat),
{
    let mut i: usize = 0;
    while i < n
        invariant
            i <= n,
            v@ == old(v)@ + zeros(i as nat),
        decreases n - i,
    {
        v.push(0);
        i = i + 1;
        assert(v@ =~= old(v)@ + zeros(i as nat));
    }
}

fn push_slice(v: &mut Vec<u8>, s: &[u8])
    ensures
        final(v)@ == old(v)@ + s@,
{
    let mut i: usize = 0;
    while i < s.len()
        invariant
            i <= s@.len(),
            v@ == old(v)@ + s@.take(i as int),
        decreases s@.len() - i,
    {
        v.push(s[i]);
        i = i + 1;
        assert(v@ =~= old(v)@ + s@.take(i as int));
    }
    assert(s@.take(s@.len() as int) =~= s@);
}

/// Encodes one record.
pub fn encode_record(record_type: u8, request_id: u16, content: &[u8]) -> (r: Vec<u8>)
    requires
        content@.len() <= MAX_CONTENT,
    ensures
        r@ == record(record_type, request_id, content@),
{
    let len = content.len();
    let padding = (8 - (len % 8)) % 8;
    let mut packet = vec![
        FCGI_VERSION,
        record_type,
        (request_id / 256) as u8,
        (request_id % 256) as u8,
        (len / 256) as u8,
        (len % 256) as u8,
        padding as u8,
        0,
    ];
    assert(packet@ =~= record_header(record_type, request_id, len as nat));
    push_slice(&mut packet, content);
    push_zeros(&mut packet, padding);
    packet
}

/// Encodes the length prefix of a name or a value.
pub fn encode_length(n: usize) -> (r: Vec<u8>)
    requires
        n < 0x80000000,
    ensures
        r@ == length_bytes(n as nat),
        r@.len() == if n < 128 { 1nat } else { 4nat },
{
    if n < 128 {
        vec![n as u8]
    } else {
        let r = vec![
            ((n / 0x1000000) + 128) as u8,
            ((n / 0x10000) % 256) as u8,
            ((n / 256) % 256) as u8,
            (n % 256) as u8,
        ];
        assert(r@ =~= length_bytes(n as nat));
        r
    }
}

/// Encodes name/value pairs in order.
pub fn encode_params(params: &Vec<(String, String)>) -> (r: Vec<u8>)
    requires
        forall|i: int|
            0 <= i < params@.len() ==> str_bytes((#[trigger] params@[i]).0).len() < 0x80000000
                && str_bytes(params@[i].1).len() < 0x80000000,
    ensures
        r@ == pairs_bytes(params@),
{
    let mut out: Vec<u8> = Vec::new();
    let mut i: usize = 0;
    while i < params.len()
        invariant
            i <= params@.len(),
            forall|i: int|
                0 <= i < params@.len() ==> str_bytes((#[trigger] params@[i]).0).len() < 0x80000000
                    && str_bytes(params@[i].1).len() < 0x80000000,
            out@ == pairs_bytes(params@.take(i as int)),
        decreases params@.len() - i,
    {
        let (k, v) = &params[i];
        let kb = k.as_str().as_bytes();
        let vb = v.as_str().as_bytes();
        let ghost prev = out@;
        let kl = encode_length(kb.len());
        let vl = encode_length(vb.len());
        push_slice(&mut out, kl.as_slice());
        push_slice(&mut out, vl.as_slice());
        push_slice(&mut out, kb);
        push_slice(&mut out, vb);
        i = i + 1;
        assert(params@.take(i as int).drop_last() =~= params@.take(i - 1));
        assert(out@ =~= prev + pair_bytes(kb@, vb@));
    }
    assert(params@.take(i as int) =~= params@);
    out
}

/// Encodes `data` as a stream of records of one type, ended by an empty record.
pub fn encode_stream(record_type: u8, request_id: u16, data: &Vec<u8>) -> (r: Vec<u8>)
    ensures
        r@ == stream(record_type, request_id, data@),
{
    let mut out: Vec<u8> = Vec::new();
    let mut start: usize = 0;
    assert(data@.skip(0) =~= data@);
    assert(out@ + chunked_records(record_type, request_id, data@) =~= chunked_records(
        record_type,
        request_id,
        data@,
    ));
    while start < data.len()
        invariant
            start <= data@.len(),
            out@ + chunked_records(record_type, request_id, data@.skip(start as int)) == chunked_records(
                record_type,
                request_id,
                data@,
            ),
        decreases data@.len() - start,
    {
        let rest = data.len() - start;
        let n = if rest <= MAX_CONTENT {
            rest
        } else {
            MAX_CONTENT
        };
        let chunk = slice_bytes(data, start, start + n);
        let rec = encode_record(record_type, request_id, chunk.as_slice());
        let ghost prev = out@;
        let ghost tail = data@.skip(start as int);
        assert(chunk@ =~= if rest <= MAX_CONTENT { tail } else { tail.take(MAX_CONTENT as int) });
        assert(rest > MAX_CONTENT ==> tail.skip(MAX_CONTENT as int) =~= data@.skip(start + MAX_CONTENT));
        push_slice(&mut out, rec.as_slice());
        start = start + n;
        assert(rest <= MAX_CONTENT ==> data@.skip(start as int) =~= Seq::<u8>::empty());
        assert(out@ + chunked_records(record_type, request_id, data@.skip(start as int)) =~= prev
            + chunked_records(record_type, request_id, tail));
    }
    assert(data@.skip(start as int) =~= Seq::<u8>::empty());
    assert(out@ + Seq::<u8>::empty() =~= out@);
    let empty: Vec<u8> = Vec::new();
    let last = encode_record(record_type, request_id, empty.as_slice());
    assert(empty@ =~= Seq::<u8>::empty());
    push_slice(&mut out, last.as_slice());
    out
}

fn slice_bytes(s: &Vec<u8>, from: usize, to: usize) -> (r: Vec<u8>)
    requires
        from <= to <= s@.len(),
    ensures
        r@ == s@.subrange(from as int, to as int),
{
    let mut r: Vec<u8> = Vec::new();
    let mut i: usize = from;
    while i < to
        invariant
            from <= i <= to <= s@.len(),
            r@ == s@.subrange(from as int, i as int),
        decreases to - i,
    {
        r.push(s[i]);
        i = i + 1;
        assert(r@ =~= s@.subrange(from as int, i as int));
    }
    r
}

/// The BEGIN_REQUEST record: role responder, flags zero.
pub fn encode_begin_request(request_id: u16) -> (r: Vec<u8>)
    ensures
        r@ == begin_request_bytes(request_id),
{
    let body: Vec<u8> = vec![(FCGI_RESPONDER / 256) as u8, (FCGI_RESPONDER % 256) as u8, 0, 0, 0, 0, 0, 0];
    let r = encode_record(FCGI_BEGIN_REQUEST, request_id, body.as_slice());
    assert(body@ =~= seq![(FCGI_RESPONDER / 256) as u8, (FCGI_RESPONDER % 256) as u8, 0u8, 0u8, 0u8, 0u8, 0u8, 0u8]);
    r
}

#[derive(Clone, Debug)]
pub struct FastCGIConfig {
    pub socket_path: Option<String>,
    pub tcp_addr: Option<String>,
    pub document_root: String,
    pub index_files: Vec<String>,
    pub script_filename: Option<String>,
    /// Extra parameters sent with every request; they override computed ones.
    pub params: Vec<(String, String)>,
    pub connect_timeout: u64,
    pub read_timeout: u64,
    pub write_timeout: u64,
}

impl Default for FastCGIConfig {
    fn default() -> (r: Self)
        ensures
            r.socket_path matches Some(p) && p@ == "/var/run/php/php8.3-fpm.sock"@,
            r.tcp_addr is None,
            r.document_root@ == "/var/www/html"@,
            r.index_files@.len() == 2 && r.index_files@[0]@ == "index.php"@ && r.index_files@[1]@
                == "index.html"@,
            r.script_filename is None,
            r.params@.len() == 0,
            r.connect_timeout == 10 && r.read_timeout == 30 && r.write_timeout == 30,
    {
        FastCGIConfig {
            socket_path: Some("/var/run/php/php8.3-fpm.sock".to_owned()),
            tcp_addr: None,
            document_root: "/var/www/html".to_owned(),
            index_files: vec!["index.php".to_owned(), "index.html".to_owned()],
            script_filename: None,
            params: Vec::new(),
            connect_timeout: 10,
            read_timeout: 30,
            write_timeout: 30,
        }
    }
}

/// Sets `k` to `v` in a list of pairs whose keys are distinct: the pair
/// with key `k` is replaced where it is, or a new pair goes at the end.
pub open spec fn put(s: Seq<(Seq<char>, Seq<char>)>, k: Seq<char>, v: Seq<char>) -> Seq<
    (Seq<char>, Seq<char>),
>
    decreases s.len(),
{
    if s.len() == 0 {
        seq![(k, v)]
    } else if s[0].0 == k {
        seq![(k, v)] + s.skip(1)
    } else {
        seq![s[0]] + put(s.skip(1), k, v)
    }
}

pub open spec fn put_all(s: Seq<(Seq<char>, Seq<char>)>, ps: Seq<(Seq<char>, Seq<char>)>) -> Seq<
    (Seq<char>, Seq<char>),
>
    decreases ps.len(),
{
    if ps.len() == 0 {
        s
    } else {
        let prev = put_all(s, ps.drop_last());
        put(prev, ps.last().0, ps.last().1)
    }
}

/// The CGI variable of a request header: `HTTP_` and the name in upper case
/// with `-` written as `_`.
pub open spec fn http_var(name: Seq<char>) -> Seq<char> {
    "HTTP_"@ + replaced(upper(name), seq!['-'], seq!['_'])
}

pub open spec fn put_headers(s: Seq<(Seq<char>, Seq<char>)>, hs: Seq<(Seq<char>, Seq<char>)>) -> Seq<
    (Seq<char>, Seq<char>),
>
    decreases hs.len(),
{
    if hs.len() == 0 {
        s
    } else {
        let prev = put_headers(s, hs.drop_last());
        put(prev, http_var(hs.last().0), hs.last().1)
    }
}

/// The value of the first header whose name, in lower case, is `name`.
pub open spec fn header_value(hs: Seq<(Seq<char>, Seq<char>)>, name: Seq<char>) -> Option<Seq<char>>
    decreases hs.len(),
{
    if hs.len() == 0 {
        None
    } else if lower(hs[0].0) == name {
        Some(hs[0].1)
    } else {
        header_value(hs.skip(1), name)
    }
}

pub open spec fn put_opt(s: Seq<(Seq<char>, Seq<char>)>, k: Seq<char>, v: Option<Seq<char>>) -> Seq<
    (Seq<char>, Seq<char>),
> {
    match v {
        Some(x) => put(s, k, x),
        None => s,
    }
}

/// The CGI environment of a request.
pub open spec fn cgi_params(
    cfg: FastCGIConfig,
    method: Seq<char>,
    uri: Seq<char>,
    hs: Seq<(Seq<char>, Seq<char>)>,
    script: Seq<char>,
) -> Seq<(Seq<char>, Seq<char>)> {
    let p = put(Seq::empty(), "REQUEST_METHOD"@, method);
    let p = put(p, "SCRIPT_FILENAME"@, script);
    let p = put(p, "SCRIPT_NAME"@, path_of(uri));
    let p = put(p, "REQUEST_URI"@, uri);
    let p = put(p, "DOCUMENT_URI"@, path_of(uri));
    let p = put(p, "DOCUMENT_ROOT"@, cfg.document_root@);
    let p = put(p, "SERVER_PROTOCOL"@, "HTTP/1.1"@);
    let p = put(p, "GATEWAY_INTERFACE"@, "CGI/1.1"@);
    let p = put(p, "SERVER_SOFTWARE"@, "miwidothttp/1.0"@);
    let p = put(p, "QUERY_STRING"@, query_of(uri));
    let p = put(
        p,
        "SERVER_NAME"@,
        match header_value(hs, "host"@) {
            Some(h) => h,
            None => "localhost"@,
        },
    );
    let p = put(p, "SERVER_PORT"@, "80"@);
    let p = put(p, "REMOTE_ADDR"@, "127.0.0.1"@);
    let p = put(p, "REMOTE_PORT"@, "0"@);
    let p = put_headers(p, hs);
    let p = put_opt(p, "CONTENT_TYPE"@, header_value(hs, "content-type"@));
    let p = put_opt(p, "CONTENT_LENGTH"@, header_value(hs, "content-length"@));
    let p = put(p, "PHP_SELF"@, path_of(uri));
    put_all(p, pairs_view(cfg.params@))
}

proof fn lemma_put_at(s: Seq<(Seq<char>, Seq<char>)>, k: Seq<char>, v: Seq<char>, i: int)
    requires
        0 <= i < s.len(),
        s[i].0 == k,
        forall|j: int| 0 <= j < i ==> s[j].0 != k,
    ensures
        put(s, k, v) == s.update(i, (k, v)),
    decreases s.len(),
{
    if i == 0 {
        assert(put(s, k, v) =~= s.update(i, (k, v)));
    } else {
        let t = s.skip(1);
        assert forall|j: int| 0 <= j < i - 1 implies t[j].0 != k by {
            assert(t[j] == s[j + 1]);
        }
        lemma_put_at(t, k, v, i - 1);
        assert(put(s, k, v) =~= s.update(i, (k, v)));
    }
}

proof fn lemma_put_absent(s: Seq<(Seq<char>, Seq<char>)>, k: Seq<char>, v: Seq<char>)
    requires
        forall|j: int| 0 <= j < s.len() ==> s[j].0 != k,
    ensures
        put(s, k, v) == s.push((k, v)),
    decreases s.len(),
{
    if s.len() == 0 {
        assert(put(s, k, v) =~= s.push((k, v)));
    } else {
        let t = s.skip(1);
        assert forall|j: int| 0 <= j < t.len() implies t[j].0 != k by {
            assert(t[j] == s[j + 1]);
        }
        lemma_put_absent(t, k, v);
        assert(put(s, k, v) =~= s.push((k, v)));
    }
}

/// Sets `k` to `v` in `params`.
pub(crate) fn put_param(params: &mut Vec<(String, String)>, k: String, v: String)
    ensures
        pairs_view(final(params)@) == put(pairs_view(old(params)@), k@, v@),
{
    let ghost s = pairs_view(params@);
    let kc = chars_of(k.as_str());
    let mut i: usize = 0;
    while i < params.len()
        invariant
            s == pairs_view(params@),
            params@ == old(params)@,
            kc@ == k@,
            i <= params@.len(),
            forall|j: int| 0 <= j < i ==> s[j].0 != k@,
        decreases params@.len() - i,
    {
        if eq_chars(&chars_of(params[i].0.as_str()), &kc) {
            proof {
                lemma_put_at(s, k@, v@, i as int);
            }
            params.set(i, (k, v));
            assert(pairs_view(params@) =~= s.update(i as int, (kc@, v@)));
            return;
        }
        i = i + 1;
    }
    proof {
        lemma_put_absent(s, k@, v@);
    }
    params.push((k, v));
    assert(pairs_view(params@) =~= s.push((k@, v@)));
}

fn find_header<'a>(hs: &'a Vec<(String, String)>, name: &Vec<char>) -> (r: Option<&'a String>)
    ensures
        match r {
            Some(v) => header_value(pairs_view(hs@), name@) == Some(v@),
            None => header_value(pairs_view(hs@), name@) is None,
        },
{
    let ghost s = pairs_view(hs@);
    let mut i: usize = 0;
    assert(s.skip(0) =~= s);
    while i < hs.len()
        invariant
            s == pairs_view(hs@),
            i <= hs@.len(),
            header_value(s, name@) == header_value(s.skip(i as int), name@),
        decreases hs@.len() - i,
    {
        assert(s.skip(i as int).skip(1) =~= s.skip(i + 1));
        assert(s.skip(i as int)[0] == s[i as int]);
        if eq_chars(&lower_vec(&chars_of(hs[i].0.as_str())), name) {
            return Some(&hs[i].1);
        }
        i = i + 1;
    }
    None
}

fn http_var_of(name: &String) -> (r: String)
    ensures
        r@ == http_var(name@),
{
    let u = upper_vec(&chars_of(name.as_str()));
    let snake = replace_all(&u, &one_char('-'), &one_char('_'));
    string_of(&concat(&chars_of("HTTP_"), &snake))
}

pub struct FastCGIProxy {
    config: FastCGIConfig,
}

impl FastCGIProxy {
    pub closed spec fn config(&self) -> FastCGIConfig {
        self.config
    }

    pub fn new(config: FastCGIConfig) -> (r: Self)
        ensures
            r.config() == config,
    {
        FastCGIProxy { config }
    }

    /// One record of the given type.
    pub fn build_packet(&self, packet_type: u8, request_id: u16, content: &[u8]) -> (r: Vec<u8>)
        requires
            content@.len() <= MAX_CONTENT,
        ensures
            r@ == record(packet_type, request_id, content@),
    {
        encode_record(packet_type, request_id, content)
    }

    /// The CGI environment for a request to `script_path`: the standard
    /// variables, one `HTTP_*` variable per header, the content type and
    /// length when present, then the configured extra parameters.
    pub fn build_params(
        &self,
        method: &String,
        uri: &String,
        headers: &Vec<(String, String)>,
        script_path: &String,
    ) -> (r: Vec<(String, String)>)
        ensures
            pairs_view(r@) == cgi_params(self.config(), method@, uri@, pairs_view(headers@), script_path@),
    {
        let (path, query) = split_uri(&chars_of(uri.as_str()));
        let mut p: Vec<(String, String)> = Vec::new();
        put_param(&mut p, "REQUEST_METHOD".to_owned(), method.clone());
        put_param(&mut p, "SCRIPT_FILENAME".to_owned(), script_path.clone());
        put_param(&mut p, "SCRIPT_NAME".to_owned(), string_of(&path));
        put_param(&mut p, "REQUEST_URI".to_owned(), uri.clone());
        put_param(&mut p, "DOCUMENT_URI".to_owned(), string_of(&path));
        put_param(&mut p, "DOCUMENT_ROOT".to_owned(), self.config.document_root.clone());
        put_param(&mut p, "SERVER_PROTOCOL".to_owned(), "HTTP/1.1".to_owned());
        put_param(&mut p, "GATEWAY_INTERFACE".to_owned(), "CGI/1.1".to_owned());
        put_param(&mut p, "SERVER_SOFTWARE".to_owned(), "miwidothttp/1.0".to_owned());
        put_param(&mut p, "QUERY_STRING".to_owned(), string_of(&query));
        let server_name = match find_header(headers, &chars_of("host")) {
            Some(h) => h.clone(),
            None => "localhost".to_owned(),
        };
        put_param(&mut p, "SERVER_NAME".to_owned(), server_name);
        put_param(&mut p, "SERVER_PORT".to_owned(), "80".to_owned());
        put_param(&mut p, "REMOTE_ADDR".to_owned(), "127.0.0.1".to_owned());
        put_param(&mut p, "REMOTE_PORT".to_owned(), "0".to_owned());
        let ghost hs = pairs_view(headers@);
        let ghost base = pairs_view(p@);
        let mut i: usize = 0;
        while i < headers.len()
            invariant
                hs == pairs_view(headers@),
                i <= headers@.len(),
                pairs_view(p@) == put_headers(base, hs.take(i as int)),
            decreases headers@.len() - i,
        {
            let (name, value) = &headers[i];
            put_param(&mut p, http_var_of(name), value.clone());
            i = i + 1;
            assert(hs.take(i as int).drop_last() =~= hs.take(i - 1));
        }
        assert(hs.take(i as int) =~= hs);
        match find_header(headers, &chars_of("content-type")) {
            Some(ct) => put_param(&mut p, "CONTENT_TYPE".to_owned(), ct.clone()),
            None => {},
        }
        match find_header(headers, &chars_of("content-length")) {
            Some(cl) => put_param(&mut p, "CONTENT_LENGTH".to_owned(), cl.clone()),
            None => {},
        }
        put_param(&mut p, "PHP_SELF".to_owned(), string_of(&path));
        let ghost cs = pairs_view(self.config.params@);
        let ghost base2 = pairs_view(p@);
        let mut k: usize = 0;
        while k < self.config.params.len()
            invariant
                cs == pairs_view(self.config.params@),
                k <= cs.len(),
                pairs_view(p@) == put_all(base2, cs.take(k as int)),
            decreases cs.len() - k,
        {
            let (name, value) = &self.config.params[k];
            put_param(&mut p, name.clone(), value.clone());
            k = k + 1;
            assert(cs.take(k as int).drop_last() =~= cs.take(k - 1));
        }
        assert(cs.take(k as int) =~= cs);
        p
    }
}

#[derive(Clone, Copy, Debug, PartialEq, Eq, Structural)]
pub enum FastCgiError {
    /// A record header carried a protocol version other than 1.
    InvalidVersion,
    /// The reply on STDOUT has no blank line between its headers and its body.
    InvalidResponse,
    /// The request names no PHP script.
    NotPhp,
    /// The script named by the request does not exist.
    ScriptNotFound,
    /// Neither a TCP address nor a socket path is configured.
    NoConnection,
}

/// The fixed eight-byte header of a record.
#[derive(Clone, Copy, Debug)]
pub struct RecordHeader {
    pub version: u8,
    pub record_type: u8,
    pub request_id: u16,
    pub content_length: u16,
    pub padding_length: u8,
}

/// Reads a record header from its first eight bytes.
pub fn parse_record_header(h: &[u8]) -> (r: RecordHeader)
    requires
        h@.len() >= 8,
    ensures
        r.version == h@[0],
        r.record_type == h@[1],
        r.request_id as int == h@[2] as int * 256 + h@[3] as int,
        r.content_length as int == h@[4] as int * 256 + h@[5] as int,
        r.padding_length == h@[6],
{
    RecordHeader {
        version: h[0],
        record_type: h[1],
        request_id: (h[2] as u16) * 256 + (h[3] as u16),
        content_length: (h[4] as u16) * 256 + (h[5] as u16),
        padding_length: h[6],
    }
}

/// Collects the records of one request until END_REQUEST arrives.
pub struct ResponseCollector {
    pub request_id: u16,
    pub stdout: Vec<u8>,
    pub stderr: Vec<u8>,
    pub done: bool,
}

impl ResponseCollector {
    pub fn new(request_id: u16) -> (r: Self)
        ensures
            r.request_id == request_id,
            r.stdout@.len() == 0,
            r.stderr@.len() == 0,
            !r.done,
    {
        ResponseCollector { request_id, stdout: Vec::new(), stderr: Vec::new(), done: false }
    }

    /// Takes in one record. A record of another request is skipped; STDOUT
    /// and STDERR content is appended to its stream; END_REQUEST ends the
    /// reply; a foreign protocol version is an error.
    pub fn accept(&mut self, header: &RecordHeader, content: &[u8]) -> (r: Result<(), FastCgiError>)
        ensures
            r is Err <==> header.version != FCGI_VERSION,
            r is Err ==> r == Err::<(), FastCgiError>(FastCgiError::InvalidVersion),
            final(self).request_id == old(self).request_id,
            final(self).stdout@ == if r is Ok && header.request_id == old(self).request_id
                && header.record_type == FCGI_STDOUT {
                old(self).stdout@ + content@
            } else {
                old(self).stdout@
            },
            final(self).stderr@ == if r is Ok && header.request_id == old(self).request_id
                && header.record_type == FCGI_STDERR {
                old(self).stderr@ + content@
            } else {
                old(self).stderr@
            },
            final(self).done == (old(self).done || (r is Ok && header.request_id
                == old(self).request_id && header.record_type == FCGI_END_REQUEST)),
    {
        if header.version != FCGI_VERSION {
            return Err(FastCgiError::InvalidVersion);
        }
        if header.request_id != self.request_id {
            return Ok(());
        }
        if header.record_type == FCGI_STDOUT {
            push_slice(&mut self.stdout, content);
        } else if header.record_type == FCGI_STDERR {
            push_slice(&mut self.stderr, content);
        } else if header.record_type == FCGI_END_REQUEST {
            self.done = true;
        }
        Ok(())
    }
}

pub open spec fn is_ws(b: u8) -> bool {
    b == 32 || b == 9 || b == 10 || b == 11 || b == 12 || b == 13
}

pub open spec fn trim_start(s: Seq<u8>) -> Seq<u8>
    decreases s.len(),
{
    if s.len() > 0 && is_ws(s[0]) {
        trim_start(s.skip(1))
    } else {
        s
    }
}

pub open spec fn trim_end(s: Seq<u8>) -> Seq<u8>
    decreases s.len(),
{
    if s.len() > 0 && is_ws(s.last()) {
        trim_end(s.drop_last())
    } else {
        s
    }
}

/// `s` without leading and trailing ASCII whitespace.
pub open spec fn trim(s: Seq<u8>) -> Seq<u8> {
    trim_end(trim_start(s))
}

pub open spec fn lower_byte(b: u8) -> u8 {
    if 65 <= b <= 90 {
        (b + 32) as u8
    } else {
        b
    }
}

/// `h` cut at each line feed; the pieces keep any carriage return.
pub open spec fn split_lines(h: Seq<u8>) -> Seq<Seq<u8>>
    decreases h.len(),
{
    if h.len() == 0 {
        seq![Seq::empty()]
    } else {
        let prev = split_lines(h.drop_last());
        if h.last() == 10 {
            prev.push(Seq::empty())
        } else {
            prev.update(prev.len() - 1, prev.last().push(h.last()))
        }
    }
}

/// The leading run of non-whitespace bytes.
pub open spec fn first_token(v: Seq<u8>) -> Seq<u8>
    decreases v.len(),
{
    if v.len() == 0 || is_ws(v[0]) {
        Seq::empty()
    } else {
        seq![v[0]] + first_token(v.skip(1))
    }
}

pub open spec fn is_digit(b: u8) -> bool {
    48 <= b <= 57
}

pub open spec fn digits_value(t: Seq<u8>) -> nat
    decreases t.len(),
{
    if t.len() == 0 {
        0
    } else {
        digits_value(t.drop_last()) * 10 + (t.last() - 48) as nat
    }
}

/// The number that `t` spells in decimal, when it is one that fits 16 bits.
pub open spec fn parse_u16(t: Seq<u8>) -> Option<nat> {
    if t.len() > 0 && (forall|i: int| 0 <= i < t.len() ==> is_digit(#[trigger] t[i])) && digits_value(t)
        <= 65535 {
        Some(digits_value(t))
    } else {
        None
    }
}

/// A line `Name: Value` split at its first colon and trimmed, if it has one.
pub open spec fn colon_at(line: Seq<u8>, i: int) -> bool {
    0 <= i < line.len() && line[i] == 58 && forall|k: int| 0 <= k < i ==> line[k] != 58
}

pub open spec fn has_colon(line: Seq<u8>) -> bool {
    exists|i: int| 0 <= i < line.len() && line[i] == 58
}

pub open spec fn line_key(line: Seq<u8>) -> Seq<u8> {
    trim(line.take(choose|i: int| colon_at(line, i)))
}

pub open spec fn line_value(line: Seq<u8>) -> Seq<u8> {
    trim(line.skip((choose|i: int| colon_at(line, i)) + 1))
}

/// The reply headers as they build up: a status and the headers to forward.
pub ghost struct ReplyHead {
    pub status: nat,
    pub headers: Seq<(Seq<u8>, Seq<u8>)>,
}

pub open spec fn status_key() -> Seq<u8> {
    seq![115u8, 116u8, 97u8, 116u8, 117u8, 115u8]
}

/// One header line applied: `Status` sets the code (an unusable code gives
/// 200, an unreadable one leaves it), any other header is kept.
pub open spec fn apply_line(st: ReplyHead, line: Seq<u8>) -> ReplyHead {
    if !has_colon(line) {
        st
    } else if line_key(line).map_values(|b: u8| lower_byte(b)) == status_key() {
        match parse_u16(first_token(line_value(line))) {
            Some(code) => ReplyHead {
                status: if 100 <= code <= 999 { code } else { 200 },
                ..st
            },
            None => st,
        }
    } else {
        ReplyHead { headers: st.headers.push((line_key(line), line_value(line))), ..st }
    }
}

pub open spec fn apply_lines(st: ReplyHead, lines: Seq<Seq<u8>>) -> ReplyHead
    decreases lines.len(),
{
    if lines.len() == 0 {
        st
    } else {
        apply_line(apply_lines(st, lines.drop_last()), lines.last())
    }
}

pub open spec fn blank_line_at(d: Seq<u8>, i: int) -> bool {
    0 <= i && i + 4 <= d.len() && d[i] == 13 && d[i + 1] == 10 && d[i + 2] == 13 && d[i + 3] == 10
}

pub open spec fn first_blank_line(d: Seq<u8>, i: int) -> bool {
    blank_line_at(d, i) && forall|k: int| 0 <= k < i ==> !blank_line_at(d, k)
}

pub open spec fn has_blank_line(d: Seq<u8>) -> bool {
    exists|i: int| blank_line_at(d, i)
}

pub open spec fn reply_head(d: Seq<u8>) -> ReplyHead {
    apply_lines(
        ReplyHead { status: 200, headers: Seq::empty() },
        split_lines(d.take(choose|i: int| first_blank_line(d, i))),
    )
}

pub open spec fn reply_body(d: Seq<u8>) -> Seq<u8> {
    d.skip((choose|i: int| first_blank_line(d, i)) + 4)
}

/// The reply of a script, split into status, headers and body.
pub struct CgiReply {
    pub status: u16,
    pub headers: Vec<(Vec<u8>, Vec<u8>)>,
    pub body: Vec<u8>,
}

pub open spec fn byte_pairs_view(v: Seq<(Vec<u8>, Vec<u8>)>) -> Seq<(Seq<u8>, Seq<u8>)> {
    v.map_values(|p: (Vec<u8>, Vec<u8>)| (p.0@, p.1@))
}

fn is_ws_byte(b: u8) -> (r: bool)
    ensures
        r == is_ws(b),
{
    b == 32 || b == 9 || b == 10 || b == 11 || b == 12 || b == 13
}

/// `s` without leading and trailing ASCII whitespace.
pub fn trim_bytes(s: &Vec<u8>) -> (r: Vec<u8>)
    ensures
        r@ == trim(s@),
{
    let n = s.len();
    let mut i: usize = 0;
    assert(s@.skip(0) =~= s@);
    while i < n && is_ws_byte(s[i])
        invariant
            n == s@.len(),
            i <= n,
            trim_start(s@) == trim_start(s@.skip(i as int)),
        decreases n - i,
    {
        assert(s@.skip(i as int).skip(1) =~= s@.skip(i + 1));
        assert(s@.skip(i as int)[0] == s@[i as int]);
        i = i + 1;
    }
    assert(trim_start(s@.skip(i as int)) == s@.skip(i as int)) by {
        if i < n {
            assert(s@.skip(i as int)[0] == s@[i as int]);
        }
    }
    let mut j: usize = n;
    assert(s@.skip(i as int) =~= s@.subrange(i as int, n as int));
    while j > i && is_ws_byte(s[j - 1])
        invariant
            n == s@.len(),
            i <= j <= n,
            trim(s@) == trim_end(s@.subrange(i as int, j as int)),
        decreases j - i,
    {
        assert(s@.subrange(i as int, j as int).drop_last() =~= s@.subrange(i as int, j - 1));
        j = j - 1;
    }
    let r = slice_bytes(s, i, j);
    assert(trim_end(r@) == r@) by {
        if j > i {
            assert(r@.last() == s@[j - 1]);
        }
    }
    r
}

proof fn lemma_digits_monotone(t: Seq<u8>, k: int)
    requires
        0 <= k <= t.len(),
    ensures
        digits_value(t) >= digits_value(t.take(k)),
    decreases t.len(),
{
    if k < t.len() {
        lemma_digits_monotone(t.drop_last(), k);
        assert(t.drop_last().take(k) =~= t.take(k));
    } else {
        assert(t.take(k) =~= t);
    }
}

/// Reads a decimal number that fits 16 bits.
pub fn parse_u16_bytes(t: &Vec<u8>) -> (r: Option<u16>)
    ensures
        match r {
            Some(v) => parse_u16(t@) == Some(v as nat),
            None => parse_u16(t@) is None,
        },
{
    if t.len() == 0 {
        return None;
    }
    let mut acc: u32 = 0;
    let mut i: usize = 0;
    while i < t.len()
        invariant
            i <= t@.len(),
            forall|k: int| 0 <= k < i ==> is_digit(#[trigger] t@[k]),
            acc as nat == digits_value(t@.take(i as int)),
            acc <= 65535,
        decreases t@.len() - i,
    {
        let b = t[i];
        if b < 48 || b > 57 {
            assert(!is_digit(t@[i as int]));
            return None;
        }
        assert(t@.take(i + 1).drop_last() =~= t@.take(i as int));
        let next = acc * 10 + (b - 48) as u32;
        if next > 65535 {
            proof {
                lemma_digits_monotone(t@, i + 1);
            }
            return None;
        }
        acc = next;
        i = i + 1;
    }
    assert(t@.take(i as int) =~= t@);
    Some(acc as u16)
}

/// The leading run of non-whitespace bytes of `v`.
fn first_token_of(v: &Vec<u8>) -> (r: Vec<u8>)
    ensures
        r@ == first_token(v@),
{
    let mut i: usize = 0;
    assert(v@.skip(0) =~= v@);
    while i < v.len() && !is_ws_byte(v[i])
        invariant
            i <= v@.len(),
            first_token(v@) == v@.take(i as int) + first_token(v@.skip(i as int)),
        decreases v@.len() - i,
    {
        assert(v@.skip(i as int).skip(1) =~= v@.skip(i + 1));
        assert(v@.skip(i as int)[0] == v@[i as int]);
        assert(v@.take(i + 1) =~= v@.take(i as int) + seq![v@[i as int]]);
        i = i + 1;
    }
    assert(first_token(v@.skip(i as int)) == Seq::<u8>::empty()) by {
        if i < v@.len() {
            assert(v@.skip(i as int)[0] == v@[i as int]);
        }
    }
    assert(v@.take(i as int) + Seq::<u8>::empty() =~= v@.take(i as int));
    slice_bytes(v, 0, i)
}

proof fn lemma_colon_unique(line: Seq<u8>, i: int)
    requires
        colon_at(line, i),
    ensures
        has_colon(line),
        (choose|j: int| colon_at(line, j)) == i,
{
    assert(line[i] == 58);
    let j = choose|j: int| colon_at(line, j);
    assert(colon_at(line, j));
    if j < i {
        assert(line[j] != 58);
    } else if j > i {
        assert(line[i] != 58);
    }
}

fn lower_bytes(s: &Vec<u8>) -> (r: Vec<u8>)
    ensures
        r@ == s@.map_values(|b: u8| lower_byte(b)),
{
    let mut r: Vec<u8> = Vec::new();
    let mut i: usize = 0;
    while i < s.len()
        invariant
            i <= s@.len(),
            r@ == s@.take(i as int).map_values(|b: u8| lower_byte(b)),
        decreases s@.len() - i,
    {
        let b = s[i];
        r.push(if 65 <= b && b <= 90 { b + 32 } else { b });
        i = i + 1;
        assert(r@ =~= s@.take(i as int).map_values(|b: u8| lower_byte(b)));
    }
    assert(s@.take(s@.len() as int) =~= s@);
    r
}

fn eq_bytes(a: &Vec<u8>, b: &Vec<u8>) -> (r: bool)
    ensures
        r == (a@ == b@),
{
    if a.len() != b.len() {
        return false;
    }
    let mut i: usize = 0;
    while i < a.len()
        invariant
            a@.len() == b@.len(),
            i <= a@.len(),
            forall|k: int| 0 <= k < i ==> a@[k] == b@[k],
        decreases a@.len() - i,
    {
        if a[i] != b[i] {
            return false;
        }
        i = i + 1;
    }
    assert(a@ =~= b@);
    true
}

/// Applies one header line of the reply.
fn apply_reply_line(status: &mut u16, headers: &mut Vec<(Vec<u8>, Vec<u8>)>, line: &Vec<u8>)
    requires
        100 <= *old(status) <= 999,
    ensures
        100 <= *final(status) <= 999,
        apply_line(ReplyHead { status: *old(status) as nat, headers: byte_pairs_view(old(headers)@) }, line@)
            == (ReplyHead { status: *final(status) as nat, headers: byte_pairs_view(final(headers)@) }),
{
    let mut i: usize = 0;
    while i < line.len() && line[i] != 58
        invariant
            i <= line@.len(),
            forall|k: int| 0 <= k < i ==> line@[k] != 58,
        decreases line@.len() - i,
    {
        i = i + 1;
    }
    if i == line.len() {
        assert(!has_colon(line@));
        return;
    }
    proof {
        lemma_colon_unique(line@, i as int);
    }
    let key = trim_bytes(&slice_bytes(line, 0, i));
    let value = trim_bytes(&slice_bytes(line, i + 1, line.len()));
    assert(line@.subrange(0, i as int) =~= line@.take(i as int));
    assert(line@.subrange(i + 1, line@.len() as int) =~= line@.skip(i + 1));
    let status_name: Vec<u8> = vec![115, 116, 97, 116, 117, 115];
    assert(status_name@ =~= status_key());
    if eq_bytes(&lower_bytes(&key), &status_name) {
        match parse_u16_bytes(&first_token_of(&value)) {
            Some(code) => {
                *status = if 100 <= code && code <= 999 { code } else { 200 };
            },
            None => {},
        }
    } else {
        let ghost prev = byte_pairs_view(headers@);
        headers.push((key, value));
        assert(byte_pairs_view(headers@) =~= prev.push((key@, value@)));
    }
}

proof fn lemma_split_lines_nonempty(h: Seq<u8>)
    ensures
        split_lines(h).len() >= 1,
    decreases h.len(),
{
    if h.len() > 0 {
        lemma_split_lines_nonempty(h.drop_last());
    }
}

proof fn lemma_blank_unique(d: Seq<u8>, i: int)
    requires
        first_blank_line(d, i),
    ensures
        has_blank_line(d),
        (choose|j: int| first_blank_line(d, j)) == i,
{
    let j = choose|j: int| first_blank_line(d, j);
    assert(first_blank_line(d, j));
    if j < i {
        assert(!blank_line_at(d, j));
    } else if j > i {
        assert(!blank_line_at(d, i));
    }
}

fn find_blank_line(data: &Vec<u8>) -> (r: Option<usize>)
    ensures
        r is None <==> !has_blank_line(data@),
        r matches Some(k) ==> first_blank_line(data@, k as int),
{
    let n = data.len();
    let mut sep: usize = 0;
    while sep < n && n - sep >= 4
        invariant
            n == data@.len(),
            forall|k: int| 0 <= k < sep ==> !blank_line_at(data@, k),
        decreases n - sep,
    {
        if data[sep] == 13 && data[sep + 1] == 10 && data[sep + 2] == 13 && data[sep + 3] == 10 {
            assert(blank_line_at(data@, sep as int));
            return Some(sep);
        }
        sep = sep + 1;
    }
    assert(!has_blank_line(data@)) by {
        if has_blank_line(data@) {
            let k = choose|k: int| blank_line_at(data@, k);
            assert(k < sep);
        }
    }
    None
}

/// Splits the STDOUT of a script into its status, headers and body.
pub fn parse_http_response(data: &Vec<u8>) -> (r: Result<CgiReply, FastCgiError>)
    ensures
        r is Err <==> !has_blank_line(data@),
        r is Err ==> r == Err::<CgiReply, FastCgiError>(FastCgiError::InvalidResponse),
        r matches Ok(reply) ==> reply.status as nat == reply_head(data@).status && byte_pairs_view(
            reply.headers@,
        ) == reply_head(data@).headers && reply.body@ == reply_body(data@),
{
    let n = data.len();
    let sep = match find_blank_line(data) {
        Some(k) => k,
        None => {
            return Err(FastCgiError::InvalidResponse);
        },
    };
    proof {
        lemma_blank_unique(data@, sep as int);
    }
    let head = slice_bytes(data, 0, sep);
    let body = slice_bytes(data, sep + 4, n);
    assert(head@ =~= data@.take(sep as int));
    assert(body@ =~= data@.skip(sep + 4));
    let mut status: u16 = 200;
    let mut headers: Vec<(Vec<u8>, Vec<u8>)> = Vec::new();
    let mut cur: Vec<u8> = Vec::new();
    let ghost init = ReplyHead { status: 200, headers: Seq::empty() };
    let mut i: usize = 0;
    assert(head@.take(0) =~= Seq::<u8>::empty());
    assert(byte_pairs_view(headers@) =~= Seq::<(Seq<u8>, Seq<u8>)>::empty());
    while i < head.len()
        invariant
            i <= head@.len(),
            100 <= status <= 999,
            split_lines(head@.take(i as int)).len() >= 1,
            (ReplyHead { status: status as nat, headers: byte_pairs_view(headers@) }) == apply_lines(
                init,
                split_lines(head@.take(i as int)).drop_last(),
            ),
            cur@ == split_lines(head@.take(i as int)).last(),
        decreases head@.len() - i,
    {
        let ghost lines = split_lines(head@.take(i as int));
        let b = head[i];
        assert(head@.take(i + 1).drop_last() =~= head@.take(i as int));
        assert(head@.take(i + 1).last() == b);
        if b == 10 {
            apply_reply_line(&mut status, &mut headers, &cur);
            cur = Vec::new();
            assert(lines.push(Seq::<u8>::empty()).drop_last() =~= lines);
            assert(lines =~= lines.drop_last().push(lines.last()));
        } else {
            cur.push(b);
            assert(lines.update(lines.len() - 1, lines.last().push(b)).drop_last() =~= lines.drop_last());
        }
        i = i + 1;
        proof {
            lemma_split_lines_nonempty(head@.take(i as int));
        }
    }
    let ghost lines = split_lines(head@.take(i as int));
    apply_reply_line(&mut status, &mut headers, &cur);
    assert(head@.take(i as int) =~= head@);
    assert(lines =~= lines.drop_last().push(lines.last()));
    Ok(CgiReply { status, headers, body })
}

/// What the caller found on disk for a candidate script path.
#[derive(Clone, Debug)]
pub struct PathProbe {
    pub path: String,
    pub exists: bool,
    pub is_dir: bool,
}

pub open spec fn strip_leading_slashes(s: Seq<char>) -> Seq<char>
    decreases s.len(),
{
    if s.len() > 0 && s[0] == '/' {
        strip_leading_slashes(s.skip(1))
    } else {
        s
    }
}

pub open spec fn strip_trailing_slashes(s: Seq<char>) -> Seq<char>
    decreases s.len(),
{
    if s.len() > 0 && s.last() == '/' {
        strip_trailing_slashes(s.drop_last())
    } else {
        s
    }
}

/// `b` appended to the directory `a` as a path component.
pub open spec fn join(a: Seq<char>, b: Seq<char>) -> Seq<char> {
    if a.len() > 0 && a.last() == '/' {
        a + b
    } else {
        a + seq!['/'] + b
    }
}

pub open spec fn php_suffix() -> Seq<char> {
    seq!['.', 'p', 'h', 'p']
}

/// The last component of the path has the extension `php`.
pub open spec fn has_php_ext(p: Seq<char>) -> bool {
    let s = strip_trailing_slashes(p);
    s.len() > 4 && s.skip(s.len() - 4) == php_suffix() && s[s.len() - 5] != '/'
}

pub open spec fn probe_of(probes: Seq<PathProbe>, path: Seq<char>) -> Option<PathProbe>
    decreases probes.len(),
{
    if probes.len() == 0 {
        None
    } else if probes[0].path@ == path {
        Some(probes[0])
    } else {
        probe_of(probes.skip(1), path)
    }
}

pub open spec fn exists_in(probes: Seq<PathProbe>, path: Seq<char>) -> bool {
    probe_of(probes, path) matches Some(p) && p.exists
}

pub open spec fn is_dir_in(probes: Seq<PathProbe>, path: Seq<char>) -> bool {
    probe_of(probes, path) matches Some(p) && p.is_dir
}

/// The path a request target names under the document root.
pub open spec fn script_base(root: Seq<char>, uri_path: Seq<char>) -> Seq<char> {
    join(root, strip_leading_slashes(uri_path))
}

/// Index files tried in a directory, from the `k`-th on: the first that
/// exists and is a PHP script.
pub open spec fn index_choice(
    base: Seq<char>,
    index_files: Seq<String>,
    k: int,
    probes: Seq<PathProbe>,
) -> Option<Seq<char>>
    decreases index_files.len() - k,
{
    if k < 0 || k >= index_files.len() {
        None
    } else {
        let p = join(base, index_files[k]@);
        if exists_in(probes, p) && has_php_ext(p) {
            Some(p)
        } else {
            index_choice(base, index_files, k + 1, probes)
        }
    }
}

/// Script resolution: a directory's PHP index file; else the path itself
/// when it is an existing PHP script; else the path with `.php` appended.
pub open spec fn resolve(
    root: Seq<char>,
    index_files: Seq<String>,
    uri_path: Seq<char>,
    probes: Seq<PathProbe>,
) -> Result<Seq<char>, FastCgiError> {
    let base = script_base(root, uri_path);
    let idx = if is_dir_in(probes, base) {
        index_choice(base, index_files, 0, probes)
    } else {
        None
    };
    match idx {
        Some(p) => Ok(p),
        None => if !has_php_ext(base) {
            if exists_in(probes, base + php_suffix()) {
                Ok(base + php_suffix())
            } else {
                Err(FastCgiError::NotPhp)
            }
        } else if !exists_in(probes, base) {
            Err(FastCgiError::ScriptNotFound)
        } else {
            Ok(base)
        },
    }
}

fn strip_leading_slashes_of(s: &Vec<char>) -> (r: Vec<char>)
    ensures
        r@ == strip_leading_slashes(s@),
{
    let mut i: usize = 0;
    assert(s@.skip(0) =~= s@);
    while i < s.len() && s[i] == '/'
        invariant
            i <= s@.len(),
            strip_leading_slashes(s@) == strip_leading_slashes(s@.skip(i as int)),
        decreases s@.len() - i,
    {
        assert(s@.skip(i as int).skip(1) =~= s@.skip(i + 1));
        assert(s@.skip(i as int)[0] == s@[i as int]);
        i = i + 1;
    }
    assert(strip_leading_slashes(s@.skip(i as int)) == s@.skip(i as int)) by {
        if i < s@.len() {
            assert(s@.skip(i as int)[0] == s@[i as int]);
        }
    }
    let r = crate::text::slice(s, i, s.len());
    assert(r@ =~= s@.skip(i as int));
    r
}

fn join_of(a: &Vec<char>, b: &Vec<char>) -> (r: Vec<char>)
    ensures
        r@ == join(a@, b@),
{
    if a.len() > 0 && a[a.len() - 1] == '/' {
        concat(a, b)
    } else {
        let mut r = a.clone();
        r.push('/');
        assert(r@ =~= a@ + seq!['/']);
        crate::text::push_all(&mut r, b);
        r
    }
}

pub(crate) fn has_php_ext_of(p: &Vec<char>) -> (r: bool)
    ensures
        r == has_php_ext(p@),
{
    let mut j: usize = p.len();
    assert(p@.take(j as int) =~= p@);
    while j > 0 && p[j - 1] == '/'
        invariant
            j <= p@.len(),
            strip_trailing_slashes(p@) == strip_trailing_slashes(p@.take(j as int)),
        decreases j,
    {
        assert(p@.take(j as int).drop_last() =~= p@.take(j - 1));
        j = j - 1;
    }
    let ghost s = p@.take(j as int);
    assert(strip_trailing_slashes(s) == s) by {
        if j > 0 {
            assert(s.last() == p@[j - 1]);
        }
    }
    if j <= 4 {
        return false;
    }
    let r = p[j - 4] == '.' && p[j - 3] == 'p' && p[j - 2] == 'h' && p[j - 1] == 'p' && p[j - 5] != '/';
    assert(r == (s.skip(s.len() - 4) =~= php_suffix() && s[s.len() - 5] != '/')) by {
        assert(s.skip(s.len() - 4)[0] == p@[j - 4]);
        assert(s.skip(s.len() - 4)[1] == p@[j - 3]);
        assert(s.skip(s.len() - 4)[2] == p@[j - 2]);
        assert(s.skip(s.len() - 4)[3] == p@[j - 1]);
    }
    r
}

fn find_probe<'a>(probes: &'a Vec<PathProbe>, path: &Vec<char>) -> (r: Option<&'a PathProbe>)
    ensures
        match r {
            Some(p) => probe_of(probes@, path@) == Some(*p),
            None => probe_of(probes@, path@) is None,
        },
{
    let mut i: usize = 0;
    assert(probes@.skip(0) =~= probes@);
    while i < probes.len()
        invariant
            i <= probes@.len(),
            probe_of(probes@, path@) == probe_of(probes@.skip(i as int), path@),
        decreases probes@.len() - i,
    {
        assert(probes@.skip(i as int).skip(1) =~= probes@.skip(i + 1));
        assert(probes@.skip(i as int)[0] == probes@[i as int]);
        if eq_chars(&chars_of(probes[i].path.as_str()), path) {
            return Some(&probes[i]);
        }
        i = i + 1;
    }
    None
}

fn exists_of(probes: &Vec<PathProbe>, path: &Vec<char>) -> (r: bool)
    ensures
        r == exists_in(probes@, path@),
{
    match find_probe(probes, path) {
        Some(p) => p.exists,
        None => false,
    }
}

impl FastCGIProxy {
    /// The paths whose existence script resolution may ask about: the
    /// script path, each index file under it, and the path with `.php` appended.
    pub fn script_probe_paths(&self, uri_path: &String) -> (r: Vec<String>)
        ensures
            r@.len() == self.config().index_files@.len() + 2,
            r@[0]@ == script_base(self.config().document_root@, uri_path@),
            forall|k: int|
                0 <= k < self.config().index_files@.len() ==> (#[trigger] r@[k + 1])@ == join(
                    script_base(self.config().document_root@, uri_path@),
                    self.config().index_files@[k]@,
                ),
            r@[r@.len() - 1]@ == script_base(self.config().document_root@, uri_path@) + php_suffix(),
    {
        let base = join_of(
            &chars_of(self.config.document_root.as_str()),
            &strip_leading_slashes_of(&chars_of(uri_path.as_str())),
        );
        let mut r: Vec<String> = Vec::new();
        r.push(string_of(&base));
        let mut k: usize = 0;
        while k < self.config.index_files.len()
            invariant
                k <= self.config.index_files@.len(),
                r@.len() == k + 1,
                r@[0]@ == base@,
                forall|j: int|
                    0 <= j < k ==> (#[trigger] r@[j + 1])@ == join(base@, self.config.index_files@[j]@),
            decreases self.config.index_files@.len() - k,
        {
            r.push(string_of(&join_of(&base, &chars_of(self.config.index_files[k].as_str()))));
            k = k + 1;
        }
        let mut php = base.clone();
        crate::text::push_all(&mut php, &vec!['.', 'p', 'h', 'p']);
        r.push(string_of(&php));
        assert(php@ =~= base@ + php_suffix());
        r
    }

    /// Finds the script a request target names, from what the caller found
    /// on disk for the paths of `script_probe_paths`; a path that was not
    /// probed counts as missing.
    pub fn resolve_script_path(&self, uri_path: &String, probes: &Vec<PathProbe>) -> (r: Result<
        String,
        FastCgiError,
    >)
        ensures
            match r {
                Ok(p) => resolve(
                    self.config().document_root@,
                    self.config().index_files@,
                    uri_path@,
                    probes@,
                ) == Ok::<Seq<char>, FastCgiError>(p@),
                Err(e) => resolve(
                    self.config().document_root@,
                    self.config().index_files@,
                    uri_path@,
                    probes@,
                ) == Err::<Seq<char>, FastCgiError>(e),
            },
    {
        let base = join_of(
            &chars_of(self.config.document_root.as_str()),
            &strip_leading_slashes_of(&chars_of(uri_path.as_str())),
        );
        let dir = match find_probe(probes, &base) {
            Some(p) => p.is_dir,
            None => false,
        };
        assert(dir == is_dir_in(probes@, base@));
        assert(base@ == script_base(self.config().document_root@, uri_path@));
        if dir {
            let ghost files = self.config.index_files@;
            let mut k: usize = 0;
            while k < self.config.index_files.len()
                invariant
                    files == self.config.index_files@,
                    is_dir_in(probes@, base@),
                    base@ == script_base(self.config().document_root@, uri_path@),
                    k <= files.len(),
                    index_choice(base@, files, 0, probes@) == index_choice(base@, files, k as int, probes@),
                decreases files.len() - k,
            {
                let p = join_of(&base, &chars_of(self.config.index_files[k].as_str()));
                if exists_of(probes, &p) && has_php_ext_of(&p) {
                    assert(index_choice(base@, files, k as int, probes@) == Some(p@));
                    return Ok(string_of(&p));
                }
                k = k + 1;
            }
        }
        if !has_php_ext_of(&base) {
            let mut php = base.clone();
            crate::text::push_all(&mut php, &vec!['.', 'p', 'h', 'p']);
            assert(php@ =~= base@ + php_suffix());
            if exists_of(probes, &php) {
                return Ok(string_of(&php));
            }
            return Err(FastCgiError::NotPhp);
        }
        if !exists_of(probes, &base) {
            return Err(FastCgiError::ScriptNotFound);
        }
        Ok(string_of(&base))
    }
}

impl FastCGIProxy {
    /// The address to connect to: the configured TCP address, else the local
    /// responder port when only a socket path is configured.
    pub fn connect_address(&self) -> (r: Result<String, FastCgiError>)
        ensures
            match self.config().tcp_addr {
                Some(a) => r == Ok::<String, FastCgiError>(a),
                None => match self.config().socket_path {
                    Some(_) => r matches Ok(a) && a@ == "127.0.0.1:9000"@,
                    None => r == Err::<String, FastCgiError>(FastCgiError::NoConnection),
                },
            },
    {
        match &self.config.tcp_addr {
            Some(a) => Ok(a.clone()),
            None => match &self.config.socket_path {
                Some(_) => Ok("127.0.0.1:9000".to_owned()),
                None => Err(FastCgiError::NoConnection),
            },
        }
    }
}

} // verus!
