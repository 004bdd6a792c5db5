//! Builders: consuming and borrowing setter chains, defaults resolved at
//! build time, validated builds, repeatable setters and a typestate builder.
use vstd::prelude::*;
use std::marker::PhantomData;
use crate::text::{lex_lt, lemma_lex_order, chars_of, chars_lt};

verus! {

/// A finished HTTP request.
#[derive(Debug, PartialEq, Eq)]
pub struct HttpRequest {
    pub method: String,
    pub url: String,
    pub body: String,
}

/// Builds a request by value: each setter consumes the builder and returns it.
pub struct HttpRequestBuilder {
    pub method: String,
    pub url: String,
    pub body: String,
}

impl HttpRequestBuilder {
    pub fn new() -> (b: Self)
        ensures
            b.method@ == "GET"@,
            b.url@ == Seq::<char>::empty(),
            b.body@ == Seq::<char>::empty(),
    {
        HttpRequestBuilder { method: "GET".to_owned(), url: String::new(), body: String::new() }
    }

    pub fn method(self, m: &str) -> (b: Self)
        ensures
            b.method@ == m@,
            b.url == self.url,
            b.body == self.body,
    {
        HttpRequestBuilder { method: m.to_owned(), ..self }
    }

    pub fn url(self, u: &str) -> (b: Self)
        ensures
            b.url@ == u@,
            b.method == self.method,
            b.body == self.body,
    {
        HttpRequestBuilder { url: u.to_owned(), ..self }
    }

    pub fn body(self, s: &str) -> (b: Self)
        ensures
            b.body@ == s@,
            b.method == self.method,
            b.url == self.url,
    {
        HttpRequestBuilder { body: s.to_owned(), ..self }
    }

    pub fn build(self) -> (r: HttpRequest)
        ensures
            r.method == self.method,
            r.url == self.url,
            r.body == self.body,
    {
        HttpRequest { method: self.method, url: self.url, body: self.body }
    }
}

/// Builds a request through `&mut` setters; `build` leaves the builder usable.
pub struct ReqBuilder {
    pub method: String,
    pub url: String,
    pub body: String,
}

impl ReqBuilder {
    pub fn new() -> (b: Self)
        ensures
            b.method@ == "GET"@,
            b.url@ == Seq::<char>::empty(),
            b.body@ == Seq::<char>::empty(),
    {
        ReqBuilder { method: "GET".to_owned(), url: String::new(), body: String::new() }
    }

    pub fn method(&mut self, m: &str) -> (r: &mut Self)
        ensures
            r.method@ == m@,
            r.url == old(self).url,
            r.body == old(self).body,
            *final(self) == *final(r),
    {
        self.method = m.to_owned();
        self
    }

    pub fn url(&mut self, u: &str) -> (r: &mut Self)
        ensures
            r.url@ == u@,
            r.method == old(self).method,
            r.body == old(self).body,
            *final(self) == *final(r),
    {
        self.url = u.to_owned();
        self
    }

    pub fn body(&mut self, s: &str) -> (r: &mut Self)
        ensures
            r.body@ == s@,
            r.method == old(self).method,
            r.url == old(self).url,
            *final(self) == *final(r),
    {
        self.body = s.to_owned();
        self
    }

    pub fn build(&self) -> (r: HttpRequest)
        ensures
            r.method@ == self.method@,
            r.url@ == self.url@,
            r.body@ == self.body@,
    {
        HttpRequest { method: self.method.clone(), url: self.url.clone(), body: self.body.clone() }
    }
}

/// Server options with every field resolved.
#[derive(Debug, PartialEq, Eq)]
pub struct ServerOpts {
    pub host: String,
    pub port: u16,
    pub max_conns: u32,
    pub tls: bool,
}

/// Optional settings; whatever is left unset takes its default at build time.
pub struct ServerOptsBuilder {
    pub host: Option<String>,
    pub port: Option<u16>,
    pub max_conns: Option<u32>,
    pub tls: Option<bool>,
}

impl ServerOptsBuilder {
    pub fn new() -> (b: Self)
        ensures
            b.host is None,
            b.port is None,
            b.max_conns is None,
            b.tls is None,
    {
        ServerOptsBuilder { host: None, port: None, max_conns: None, tls: None }
    }

    pub fn host(&mut self, h: &str) -> (r: &mut Self)
        ensures
            r.host matches Some(x) && x@ == h@,
            r.port == old(self).port,
            r.max_conns == old(self).max_conns,
            r.tls == old(self).tls,
            *final(self) == *final(r),
    {
        self.host = Some(h.to_owned());
        self
    }

    pub fn port(&mut self, p: u16) -> (r: &mut Self)
        ensures
            r.port == Some(p),
            r.host == old(self).host,
            r.max_conns == old(self).max_conns,
            r.tls == old(self).tls,
            *final(self) == *final(r),
    {
        self.port = Some(p);
        self
    }

    pub fn max_conns(&mut self, n: u32) -> (r: &mut Self)
        ensures
            r.max_conns == Some(n),
            r.host == old(self).host,
            r.port == old(self).port,
            r.tls == old(self).tls,
            *final(self) == *final(r),
    {
        self.max_conns = Some(n);
        self
    }

    pub fn tls(&mut self, on: bool) -> (r: &mut Self)
        ensures
            r.tls == Some(on),
            r.host == old(self).host,
            r.port == old(self).port,
            r.max_conns == old(self).max_conns,
            *final(self) == *final(r),
    {
        self.tls = Some(on);
        self
    }

    /// Resolves each unset option: host "127.0.0.1", port 8080, 100
    /// connections, no TLS.
    pub fn build(&self) -> (r: ServerOpts)
        ensures
            r.host@ == (match self.host {
                Some(h) => h@,
                None => "127.0.0.1"@,
            }),
            r.port == (match self.port {
                Some(p) => p,
                None => 8080u16,
            }),
            r.max_conns == (match self.max_conns {
                Some(n) => n,
                None => 100u32,
            }),
            r.tls == (match self.tls {
                Some(t) => t,
                None => false,
            }),
    {
        let host = match &self.host {
            Some(h) => h.clone(),
            None => "127.0.0.1".to_owned(),
        };
        ServerOpts {
            host,
            port: match self.port {
                Some(p) => p,
                None => 8080,
            },
            max_conns: match self.max_conns {
                Some(n) => n,
                None => 100,
            },
            tls: match self.tls {
                Some(t) => t,
                None => false,
            },
        }
    }
}

/// A validated connection description.
#[derive(Debug, PartialEq, Eq)]
pub struct Connection {
    pub name: String,
    pub port: u16,
    pub retries: u32,
}

/// Why a connection could not be built.
#[derive(Debug, Clone, Copy, PartialEq, Eq, Structural)]
pub enum BuildError {
    MissingName,
    InvalidPort,
}

/// Collects connection settings; `build` checks them.
pub struct ConnectionBuilder {
    pub name: Option<String>,
    pub port: Option<u16>,
    pub retries: Option<u32>,
}

impl ConnectionBuilder {
    pub fn new() -> (b: Self)
        ensures
            b.name is None,
            b.port is None,
            b.retries is None,
    {
        ConnectionBuilder { name: None, port: None, retries: None }
    }

    pub fn name(&mut self, n: &str) -> (r: &mut Self)
        ensures
            r.name matches Some(x) && x@ == n@,
            r.port == old(self).port,
            r.retries == old(self).retries,
            *final(self) == *final(r),
    {
        self.name = Some(n.to_owned());
        self
    }

    pub fn port(&mut self, p: u16) -> (r: &mut Self)
        ensures
            r.port == Some(p),
            r.name == old(self).name,
            r.retries == old(self).retries,
            *final(self) == *final(r),
    {
        self.port = Some(p);
        self
    }

    pub fn retries(&mut self, n: u32) -> (r: &mut Self)
        ensures
            r.retries == Some(n),
            r.name == old(self).name,
            r.port == old(self).port,
            *final(self) == *final(r),
    {
        self.retries = Some(n);
        self
    }

    /// Port defaults to 8080 and must not be 0 (checked first); the name is
    /// required; retries default to 3.
    pub fn build(&self) -> (r: Result<Connection, BuildError>)
        ensures
            self.port == Some(0u16) ==> r == Err::<Connection, BuildError>(BuildError::InvalidPort),
            self.port != Some(0u16) && self.name is None ==> r == Err::<Connection, BuildError>(
                BuildError::MissingName,
            ),
            self.port != Some(0u16) && self.name is Some ==> (r matches Ok(c) && c.name@
                == self.name->0@ && c.port == (match self.port {
                Some(p) => p,
                None => 8080u16,
            }) && c.retries == (match self.retries {
                Some(n) => n,
                None => 3u32,
            })),
    {
        let port = match self.port {
            Some(p) => p,
            None => 8080,
        };
        if port == 0 {
            return Err(BuildError::InvalidPort);
        }
        let name = match &self.name {
            Some(n) => n.clone(),
            None => return Err(BuildError::MissingName),
        };
        Ok(Connection {
            name,
            port,
            retries: match self.retries {
                Some(n) => n,
                None => 3,
            },
        })
    }
}

/// Builds the "svc" connection on port 5432, with 10 retries when asked.
pub fn build_conn(many_retries: bool) -> (r: Result<Connection, BuildError>)
    ensures
        r matches Ok(c) && c.name@ == "svc"@ && c.port == 5432 && c.retries == (if many_retries {
            10u32
        } else {
            3u32
        }),
{
    let mut b = ConnectionBuilder::new();
    b.name("svc");
    b.port(5432);
    if many_retries {
        b.retries(10);
    }
    b.build()
}

/// The string-to-string table an association list stands for: a later
/// entry for a key hides nothing, because keys are kept unique.
pub open spec fn pairs_map(pairs: Seq<(String, String)>) -> Map<Seq<char>, Seq<char>>
    decreases pairs.len(),
{
    if pairs.len() == 0 {
        Map::empty()
    } else {
        pairs_map(pairs.drop_last()).insert(pairs.last().0@, pairs.last().1@)
    }
}

/// No key occurs twice.
pub open spec fn keys_unique(pairs: Seq<(String, String)>) -> bool {
    forall|i: int, j: int| 0 <= i < j < pairs.len() ==> pairs[i].0@ != pairs[j].0@
}

/// The keys come in strictly increasing dictionary order: the one
/// arrangement that a given set of entries can have.
pub open spec fn keys_sorted(pairs: Seq<(String, String)>) -> bool {
    forall|i: int, j: int|
        0 <= i < j < pairs.len() ==> lex_lt(#[trigger] pairs[i].0@, #[trigger] pairs[j].0@)
}

proof fn lemma_sorted_unique(pairs: Seq<(String, String)>)
    requires
        keys_sorted(pairs),
    ensures
        keys_unique(pairs),
{
    assert forall|i: int, j: int| 0 <= i < j < pairs.len() implies pairs[i].0@ != pairs[j].0@ by {
        lemma_lex_order(pairs[i].0@, pairs[j].0@, pairs[j].0@);
        assert(lex_lt(pairs[i].0@, pairs[j].0@));
    }
}

proof fn lemma_pairs_map_update(pairs: Seq<(String, String)>, i: int, v: String)
    requires
        keys_unique(pairs),
        0 <= i < pairs.len(),
    ensures
        pairs_map(pairs.update(i, (pairs[i].0, v))) == pairs_map(pairs).insert(pairs[i].0@, v@),
    decreases pairs.len(),
{
    let u = pairs.update(i, (pairs[i].0, v));
    if i == pairs.len() - 1 {
        assert(u.drop_last() =~= pairs.drop_last());
        assert(pairs_map(u) =~= pairs_map(pairs).insert(pairs[i].0@, v@));
    } else {
        assert(u.drop_last() =~= pairs.drop_last().update(i, (pairs[i].0, v)));
        lemma_pairs_map_update(pairs.drop_last(), i, v);
        assert(pairs.last().0@ != pairs[i].0@);
        assert(pairs_map(u) =~= pairs_map(pairs).insert(pairs[i].0@, v@));
    }
}

proof fn lemma_pairs_map_absent(pairs: Seq<(String, String)>, k: Seq<char>)
    requires
        forall|i: int| 0 <= i < pairs.len() ==> #[trigger] pairs[i].0@ != k,
    ensures
        !pairs_map(pairs).contains_key(k),
    decreases pairs.len(),
{
    if pairs.len() > 0 {
        lemma_pairs_map_absent(pairs.drop_last(), k);
    }
}

/// A key is in the table exactly when some entry carries it.
proof fn lemma_pairs_map_dom(pairs: Seq<(String, String)>, k: Seq<char>)
    ensures
        pairs_map(pairs).contains_key(k) <==> exists|i: int|
            0 <= i < pairs.len() && #[trigger] pairs[i].0@ == k,
    decreases pairs.len(),
{
    if pairs.len() > 0 {
        let d = pairs.drop_last();
        lemma_pairs_map_dom(d, k);
        if exists|i: int| 0 <= i < d.len() && #[trigger] d[i].0@ == k {
            let i = choose|i: int| 0 <= i < d.len() && #[trigger] d[i].0@ == k;
            assert(pairs[i] == d[i]);
        }
        if exists|i: int| 0 <= i < pairs.len() && #[trigger] pairs[i].0@ == k {
            let i = choose|i: int| 0 <= i < pairs.len() && #[trigger] pairs[i].0@ == k;
            if i < d.len() {
                assert(d[i] == pairs[i]);
            }
        }
    }
}

/// The entry for a key that no later entry carries gives its value.
proof fn lemma_last_occurrence(pairs: Seq<(String, String)>, i: int)
    requires
        0 <= i < pairs.len(),
        forall|j: int| i < j < pairs.len() ==> #[trigger] pairs[j].0@ != pairs[i].0@,
    ensures
        pairs_map(pairs).contains_key(pairs[i].0@),
        pairs_map(pairs)[pairs[i].0@] == pairs[i].1@,
    decreases pairs.len(),
{
    if i < pairs.len() - 1 {
        let d = pairs.drop_last();
        assert(d[i] == pairs[i]);
        assert forall|j: int| i < j < d.len() implies #[trigger] d[j].0@ != d[i].0@ by {
            assert(d[j] == pairs[j]);
        }
        lemma_last_occurrence(d, i);
        assert(pairs[pairs.len() - 1].0@ != pairs[i].0@);
    }
}

/// Putting an entry for a new key anywhere adds it to the table.
proof fn lemma_pairs_map_insert_new(pairs: Seq<(String, String)>, i: int, e: (String, String))
    requires
        0 <= i <= pairs.len(),
        forall|j: int| 0 <= j < pairs.len() ==> #[trigger] pairs[j].0@ != e.0@,
    ensures
        pairs_map(pairs.insert(i, e)) == pairs_map(pairs).insert(e.0@, e.1@),
    decreases pairs.len(),
{
    let q = pairs.insert(i, e);
    if i == pairs.len() {
        assert(q.drop_last() =~= pairs);
        assert(q.last() == e);
    } else {
        let d = pairs.drop_last();
        assert(q.drop_last() =~= d.insert(i, e));
        assert(q.last() == pairs.last());
        assert forall|j: int| 0 <= j < d.len() implies #[trigger] d[j].0@ != e.0@ by {
            assert(d[j] == pairs[j]);
        }
        lemma_pairs_map_insert_new(d, i, e);
        assert(pairs[pairs.len() - 1].0@ != e.0@);
        assert(pairs_map(q) =~= pairs_map(pairs).insert(e.0@, e.1@));
    }
}

/// Whether the keys of `pairs` are in strictly increasing dictionary order.
fn sorted_keys(pairs: &Vec<(String, String)>) -> (b: bool)
    ensures
        b == keys_sorted(pairs@),
{
    if pairs.len() == 0 {
        return true;
    }
    let mut prev = chars_of(pairs[0].0.as_str());
    let mut i: usize = 1;
    while i < pairs.len()
        invariant
            1 <= i <= pairs.len(),
            prev@ == pairs@[i - 1].0@,
            keys_sorted(pairs@.take(i as int)),
        decreases pairs.len() - i,
    {
        let cur = chars_of(pairs[i].0.as_str());
        if !chars_lt(prev.as_slice(), cur.as_slice()) {
            assert(!lex_lt(pairs@[i - 1].0@, pairs@[i as int].0@));
            return false;
        }
        proof {
            let t = pairs@.take(i + 1);
            assert forall|a: int, b: int| 0 <= a < b < t.len() implies lex_lt(
                #[trigger] t[a].0@,
                #[trigger] t[b].0@,
            ) by {
                assert(t[a] == pairs@[a]);
                assert(t[b] == pairs@[b]);
                if b < i {
                    assert(pairs@.take(i as int)[a] == pairs@[a]);
                    assert(pairs@.take(i as int)[b] == pairs@[b]);
                } else if a < i - 1 {
                    assert(pairs@.take(i as int)[a] == pairs@[a]);
                    assert(pairs@.take(i as int)[i - 1] == pairs@[i - 1]);
                    assert(lex_lt(pairs@[a].0@, pairs@[i - 1].0@));
                    lemma_lex_order(pairs@[a].0@, pairs@[i - 1].0@, pairs@[b].0@);
                }
            }
        }
        prev = cur;
        i = i + 1;
    }
    assert(pairs@.take(pairs.len() as int) =~= pairs@);
    true
}

/// Sets `key` to `value`, replacing an earlier value for the same key. A list
/// kept in key order stays in key order, so the same settings made in any
/// order give the same list.
pub fn upsert(pairs: &mut Vec<(String, String)>, key: String, value: String)
    ensures
        pairs_map(final(pairs)@) == pairs_map(old(pairs)@).insert(key@, value@),
        keys_sorted(old(pairs)@) ==> keys_sorted(final(pairs)@),
{
    if !sorted_keys(pairs) {
        pairs.push((key, value));
        assert(pairs@.drop_last() =~= old(pairs)@);
        return;
    }
    let kc = chars_of(key.as_str());
    let mut i: usize = 0;
    while i < pairs.len()
        invariant
            pairs@ == old(pairs)@,
            keys_sorted(pairs@),
            kc@ == key@,
            i <= pairs.len(),
            forall|j: int| 0 <= j < i ==> lex_lt(#[trigger] pairs@[j].0@, key@),
        decreases pairs.len() - i,
    {
        if pairs[i].0 == key {
            let k = pairs[i].0.clone();
            proof {
                lemma_sorted_unique(pairs@);
                lemma_pairs_map_update(pairs@, i as int, value);
            }
            let ghost before = pairs@;
            pairs.set(i, (k, value));
            assert forall|a: int, b: int| 0 <= a < b < pairs@.len() implies lex_lt(
                #[trigger] pairs@[a].0@,
                #[trigger] pairs@[b].0@,
            ) by {
                assert(pairs@[a].0@ == before[a].0@);
                assert(pairs@[b].0@ == before[b].0@);
            }
            return;
        }
        let ic = chars_of(pairs[i].0.as_str());
        if chars_lt(kc.as_slice(), ic.as_slice()) {
            let ghost before = pairs@;
            proof {
                assert forall|j: int| 0 <= j < before.len() implies #[trigger] before[j].0@
                    != key@ by {
                    lemma_lex_order(before[j].0@, key@, key@);
                    if j >= i {
                        if j > i {
                            assert(lex_lt(before[i as int].0@, before[j].0@));
                        }
                        lemma_lex_order(key@, before[i as int].0@, before[j].0@);
                    }
                }
                lemma_pairs_map_insert_new(before, i as int, (key, value));
            }
            pairs.insert(i, (key, value));
            proof {
                let q = pairs@;
                assert(q == before.insert(i as int, (key, value)));
                assert forall|a: int, b: int| 0 <= a < b < q.len() implies lex_lt(
                    #[trigger] q[a].0@,
                    #[trigger] q[b].0@,
                ) by {
                    if b < i {
                        assert(q[a] == before[a] && q[b] == before[b]);
                    } else if b == i {
                        assert(q[a] == before[a]);
                    } else if a == i {
                        assert(q[b] == before[b - 1]);
                        if b - 1 > i {
                            assert(lex_lt(before[i as int].0@, before[b - 1].0@));
                        }
                        lemma_lex_order(key@, before[i as int].0@, before[b - 1].0@);
                    } else if a < i {
                        assert(q[a] == before[a] && q[b] == before[b - 1]);
                        if b - 1 > i {
                            assert(lex_lt(before[i as int].0@, before[b - 1].0@));
                        }
                        lemma_lex_order(key@, before[i as int].0@, before[b - 1].0@);
                        lemma_lex_order(before[a].0@, key@, before[b - 1].0@);
                    } else {
                        assert(q[a] == before[a - 1] && q[b] == before[b - 1]);
                    }
                }
            }
            return;
        }
        proof {
            lemma_lex_order(key@, pairs@[i as int].0@, key@);
        }
        i = i + 1;
    }
    let ghost before = pairs@;
    proof {
        assert forall|j: int| 0 <= j < before.len() implies #[trigger] before[j].0@ != key@ by {
            lemma_lex_order(before[j].0@, key@, key@);
        }
        lemma_pairs_map_absent(before, key@);
    }
    pairs.push((key, value));
    proof {
        assert(pairs@.drop_last() =~= before);
        assert forall|a: int, b: int| 0 <= a < b < pairs@.len() implies lex_lt(
            #[trigger] pairs@[a].0@,
            #[trigger] pairs@[b].0@,
        ) by {
            assert(pairs@[a] == before[a]);
            if b < before.len() {
                assert(pairs@[b] == before[b]);
            }
        }
    }
}

/// Two key-ordered lists that hold the same entries are the same list: the
/// order in which the entries were set leaves no trace.
pub proof fn law_sorted_pairs_canonical(a: Seq<(String, String)>, b: Seq<(String, String)>)
    requires
        keys_sorted(a),
        keys_sorted(b),
        pairs_map(a) == pairs_map(b),
    ensures
        a.len() == b.len(),
        forall|i: int| 0 <= i < a.len() ==> #[trigger] a[i].0@ == b[i].0@ && a[i].1@ == b[i].1@,
    decreases a.len(),
{
    if a.len() == 0 && b.len() > 0 {
        assert(pairs_map(b).contains_key(b.last().0@));
        assert(pairs_map(a) =~= Map::<Seq<char>, Seq<char>>::empty());
    } else if b.len() == 0 && a.len() > 0 {
        assert(pairs_map(a).contains_key(a.last().0@));
        assert(pairs_map(b) =~= Map::<Seq<char>, Seq<char>>::empty());
    } else if a.len() > 0 {
        let na = a.len() - 1;
        let nb = b.len() - 1;
        let ka = a[na].0@;
        let kb = b[nb].0@;
        assert(a.last() == a[na] && b.last() == b[nb]);
        assert(pairs_map(a).contains_key(ka));
        assert(pairs_map(b).contains_key(kb));
        lemma_pairs_map_dom(b, ka);
        lemma_pairs_map_dom(a, kb);
        let j = choose|j: int| 0 <= j < b.len() && #[trigger] b[j].0@ == ka;
        let i = choose|i: int| 0 <= i < a.len() && #[trigger] a[i].0@ == kb;
        if ka != kb {
            assert(j != nb);
            assert(i != na);
            assert(lex_lt(b[j].0@, b[nb].0@));
            assert(lex_lt(a[i].0@, a[na].0@));
            lemma_lex_order(ka, kb, ka);
        }
        assert(ka == kb);
        let da = a.drop_last();
        let db = b.drop_last();
        assert forall|x: int| 0 <= x < da.len() implies #[trigger] da[x].0@ != ka by {
            assert(da[x] == a[x]);
            assert(lex_lt(a[x].0@, a[na].0@));
            lemma_lex_order(a[x].0@, ka, ka);
        }
        assert forall|x: int| 0 <= x < db.len() implies #[trigger] db[x].0@ != kb by {
            assert(db[x] == b[x]);
            assert(lex_lt(b[x].0@, b[nb].0@));
            lemma_lex_order(b[x].0@, kb, kb);
        }
        lemma_pairs_map_absent(da, ka);
        lemma_pairs_map_absent(db, kb);
        assert(pairs_map(da) =~= pairs_map(a).remove(ka));
        assert(pairs_map(db) =~= pairs_map(b).remove(kb));
        assert forall|x: int, y: int| 0 <= x < y < da.len() implies lex_lt(
            #[trigger] da[x].0@,
            #[trigger] da[y].0@,
        ) by {
            assert(da[x] == a[x] && da[y] == a[y]);
        }
        assert forall|x: int, y: int| 0 <= x < y < db.len() implies lex_lt(
            #[trigger] db[x].0@,
            #[trigger] db[y].0@,
        ) by {
            assert(db[x] == b[x] && db[y] == b[y]);
        }
        law_sorted_pairs_canonical(da, db);
        assert(pairs_map(a)[ka] == a[na].1@);
        assert(pairs_map(b)[kb] == b[nb].1@);
        assert forall|x: int| 0 <= x < a.len() implies #[trigger] a[x].0@ == b[x].0@ && a[x].1@
            == b[x].1@ by {
            if x < na {
                assert(da[x] == a[x] && db[x] == b[x]);
            }
        }
    }
}

/// Looks up `key` in an association list: the value of its last entry.
pub fn lookup<'a>(pairs: &'a Vec<(String, String)>, key: &str) -> (r: Option<&'a String>)
    ensures
        pairs_map(pairs@).contains_key(key@) ==> (r matches Some(v) && v@ == pairs_map(
            pairs@,
        )[key@]),
        !pairs_map(pairs@).contains_key(key@) ==> r is None,
{
    let mut i: usize = pairs.len();
    while i > 0
        invariant
            i <= pairs.len(),
            forall|j: int| i <= j < pairs.len() ==> #[trigger] pairs@[j].0@ != key@,
        decreases i,
    {
        i = i - 1;
        if crate::text::str_eq(pairs[i].0.as_str(), key) {
            proof {
                lemma_last_occurrence(pairs@, i as int);
            }
            return Some(&pairs[i].1);
        }
    }
    proof {
        lemma_pairs_map_absent(pairs@, key@);
    }
    None
}

/// An element-by-element copy of an association list.
pub fn clone_pairs(pairs: &Vec<(String, String)>) -> (r: Vec<(String, String)>)
    ensures
        r@ == pairs@,
{
    let mut r: Vec<(String, String)> = Vec::new();
    let mut i: usize = 0;
    while i < pairs.len()
        invariant
            i <= pairs.len(),
            r@ == pairs@.take(i as int),
        decreases pairs.len() - i,
    {
        let (a, b) = &pairs[i];
        r.push((a.clone(), b.clone()));
        i = i + 1;
        assert(r@ =~= pairs@.take(i as int));
    }
    assert(pairs@.take(pairs.len() as int) =~= pairs@);
    r
}

/// A finished email.
#[derive(Debug, PartialEq, Eq)]
pub struct Email {
    pub to: Vec<String>,
    pub headers: Vec<(String, String)>,
    pub subject: String,
}

/// Accumulates recipients and headers; the subject is overwritten.
pub struct EmailBuilder {
    pub to: Vec<String>,
    pub headers: Vec<(String, String)>,
    pub subject: String,
}

impl EmailBuilder {
    pub fn new() -> (b: Self)
        ensures
            b.to@ == Seq::<String>::empty(),
            b.headers@ == Seq::<(String, String)>::empty(),
            b.subject@ == Seq::<char>::empty(),
    {
        EmailBuilder { to: Vec::new(), headers: Vec::new(), subject: String::new() }
    }

    /// Adds a recipient after the earlier ones.
    pub fn to(&mut self, addr: &str) -> (r: &mut Self)
        ensures
            r.to@.len() == old(self).to@.len() + 1,
            r.to@.drop_last() == old(self).to@,
            r.to@.last()@ == addr@,
            r.headers == old(self).headers,
            r.subject == old(self).subject,
            *final(self) == *final(r),
    {
        self.to.push(addr.to_owned());
        assert(self.to@.drop_last() =~= old(self).to@);
        self
    }

    /// Sets a header, replacing an earlier value for the same name.
    pub fn header(&mut self, k: &str, v: &str) -> (r: &mut Self)
        ensures
            keys_sorted(old(self).headers@) ==> keys_sorted(r.headers@),
            pairs_map(r.headers@) == pairs_map(old(self).headers@).insert(k@, v@),
            r.to == old(self).to,
            r.subject == old(self).subject,
            *final(self) == *final(r),
    {
        upsert(&mut self.headers, k.to_owned(), v.to_owned());
        self
    }

    pub fn subject(&mut self, s: &str) -> (r: &mut Self)
        ensures
            r.subject@ == s@,
            r.to == old(self).to,
            r.headers == old(self).headers,
            *final(self) == *final(r),
    {
        self.subject = s.to_owned();
        self
    }

    /// Copies the accumulated values out.
    pub fn build(&self) -> (r: Email)
        ensures
            r.to@ == self.to@,
            r.headers@ == self.headers@,
            r.subject@ == self.subject@,
    {
        Email { to: self.to.clone(), headers: clone_pairs(&self.headers), subject: self.subject.clone() }
    }
}

/// Marks a required field as set.
pub struct Yes;

/// Marks a required field as not yet set.
pub struct No;

/// A finished API call.
#[derive(Debug, PartialEq, Eq)]
pub struct ApiCall {
    pub endpoint: String,
    pub token: String,
    pub timeout_ms: u64,
}

/// Builds an API call; the type records whether endpoint and token are set,
/// and `build` exists only once both are.
pub struct ApiCallBuilder<E, T> {
    pub endpoint: Option<String>,
    pub token: Option<String>,
    pub timeout_ms: Option<u64>,
    pub state: PhantomData<(E, T)>,
}

impl ApiCallBuilder<No, No> {
    pub fn new() -> (b: Self)
        ensures
            b.endpoint is None,
            b.token is None,
            b.timeout_ms is None,
    {
        ApiCallBuilder { endpoint: None, token: None, timeout_ms: None, state: PhantomData }
    }
}

impl<E, T> ApiCallBuilder<E, T> {
    pub fn endpoint(self, e: &str) -> (b: ApiCallBuilder<Yes, T>)
        ensures
            b.endpoint matches Some(x) && x@ == e@,
            b.token == self.token,
            b.timeout_ms == self.timeout_ms,
    {
        ApiCallBuilder {
            endpoint: Some(e.to_owned()),
            token: self.token,
            timeout_ms: self.timeout_ms,
            state: PhantomData,
        }
    }

    pub fn token(self, t: &str) -> (b: ApiCallBuilder<E, Yes>)
        ensures
            b.token matches Some(x) && x@ == t@,
            b.endpoint == self.endpoint,
            b.timeout_ms == self.timeout_ms,
    {
        ApiCallBuilder {
            endpoint: self.endpoint,
            token: Some(t.to_owned()),
            timeout_ms: self.timeout_ms,
            state: PhantomData,
        }
    }

    pub fn timeout(self, ms: u64) -> (b: Self)
        ensures
            b.timeout_ms == Some(ms),
            b.endpoint == self.endpoint,
            b.token == self.token,
    {
        ApiCallBuilder {
            endpoint: self.endpoint,
            token: self.token,
            timeout_ms: Some(ms),
            state: PhantomData,
        }
    }
}

impl ApiCallBuilder<Yes, Yes> {
    /// The timeout defaults to 30 000 ms.
    pub fn build(self) -> (r: ApiCall)
        requires
            self.endpoint is Some,
            self.token is Some,
        ensures
            r.endpoint == self.endpoint->0,
            r.token == self.token->0,
            r.timeout_ms == (match self.timeout_ms {
                Some(t) => t,
                None => 30_000u64,
            }),
    {
        ApiCall {
            endpoint: self.endpoint.unwrap(),
            token: self.token.unwrap(),
            timeout_ms: match self.timeout_ms {
                Some(t) => t,
                None => 30_000,
            },
        }
    }
}

/// A validated server configuration.
#[derive(Debug, PartialEq, Eq)]
pub struct ServerConfig {
    pub bind_addr: String,
    pub port: u16,
    pub workers: usize,
    pub routes: Vec<String>,
    pub env: Vec<(String, String)>,
}

/// Why a server configuration is invalid.
#[derive(Debug, Clone, Copy, PartialEq, Eq, Structural)]
pub enum ConfigError {
    MissingBindAddr,
    ZeroPort,
    ZeroWorkers,
    NoRoutes,
}

/// Collects server settings by value; `build` validates them all.
pub struct ServerConfigBuilder {
    pub bind_addr: Option<String>,
    pub port: Option<u16>,
    pub workers: Option<usize>,
    pub routes: Vec<String>,
    pub env: Vec<(String, String)>,
}

impl ServerConfig {
    /// A builder with nothing set.
    pub fn builder() -> (b: ServerConfigBuilder)
        ensures
            b.bind_addr is None,
            b.port is None,
            b.workers is None,
            b.routes@ == Seq::<String>::empty(),
            b.env@ == Seq::<(String, String)>::empty(),
    {
        ServerConfigBuilder {
            bind_addr: None,
            port: None,
            workers: None,
            routes: Vec::new(),
            env: Vec::new(),
        }
    }
}

impl ServerConfigBuilder {
    pub fn bind_addr(self, a: &str) -> (b: Self)
        ensures
            b.bind_addr matches Some(x) && x@ == a@,
            b.port == self.port,
            b.workers == self.workers,
            b.routes == self.routes,
            b.env == self.env,
    {
        ServerConfigBuilder {
            bind_addr: Some(a.to_owned()),
            port: self.port,
            workers: self.workers,
            routes: self.routes,
            env: self.env,
        }
    }

    pub fn port(self, p: u16) -> (b: Self)
        ensures
            b.port == Some(p),
            b.bind_addr == self.bind_addr,
            b.workers == self.workers,
            b.routes == self.routes,
            b.env == self.env,
    {
        ServerConfigBuilder {
            bind_addr: self.bind_addr,
            port: Some(p),
            workers: self.workers,
            routes: self.routes,
            env: self.env,
        }
    }

    pub fn workers(self, n: usize) -> (b: Self)
        ensures
            b.workers == Some(n),
            b.bind_addr == self.bind_addr,
            b.port == self.port,
            b.routes == self.routes,
            b.env == self.env,
    {
        ServerConfigBuilder {
            bind_addr: self.bind_addr,
            port: self.port,
            workers: Some(n),
            routes: self.routes,
            env: self.env,
        }
    }

    /// Appends a route after the earlier ones.
    pub fn route(self, r: &str) -> (b: Self)
        ensures
            b.routes@.len() == self.routes@.len() + 1,
            b.routes@.drop_last() == self.routes@,
            b.routes@.last()@ == r@,
            b.bind_addr == self.bind_addr,
            b.port == self.port,
            b.workers == self.workers,
            b.env == self.env,
    {
        let mut routes = self.routes;
        routes.push(r.to_owned());
        assert(routes@.drop_last() =~= self.routes@);
        ServerConfigBuilder {
            bind_addr: self.bind_addr,
            port: self.port,
            workers: self.workers,
            routes: routes,
            env: self.env,
        }
    }

    /// Sets an environment variable, replacing an earlier value.
    pub fn env(self, k: &str, v: &str) -> (b: Self)
        ensures
            keys_sorted(self.env@) ==> keys_sorted(b.env@),
            pairs_map(b.env@) == pairs_map(self.env@).insert(k@, v@),
            b.bind_addr == self.bind_addr,
            b.port == self.port,
            b.workers == self.workers,
            b.routes == self.routes,
    {
        let mut env = self.env;
        upsert(&mut env, k.to_owned(), v.to_owned());
        ServerConfigBuilder {
            bind_addr: self.bind_addr,
            port: self.port,
            workers: self.workers,
            routes: self.routes,
            env: env,
        }
    }

    /// Checks, in order: a bind address is set, the port (default 8080) is
    /// not 0, the worker count (default 4) is not 0, at least one route.
    pub fn build(self) -> (r: Result<ServerConfig, ConfigError>)
        ensures
            self.bind_addr is None ==> r == Err::<ServerConfig, ConfigError>(
                ConfigError::MissingBindAddr,
            ),
            self.bind_addr is Some && self.port == Some(0u16) ==> r == Err::<
                ServerConfig,
                ConfigError,
            >(ConfigError::ZeroPort),
            self.bind_addr is Some && self.port != Some(0u16) && self.workers == Some(0usize) ==> r
                == Err::<ServerConfig, ConfigError>(ConfigError::ZeroWorkers),
            self.bind_addr is Some && self.port != Some(0u16) && self.workers != Some(0usize)
                && self.routes@.len() == 0 ==> r == Err::<ServerConfig, ConfigError>(
                ConfigError::NoRoutes,
            ),
            self.bind_addr is Some && self.port != Some(0u16) && self.workers != Some(0usize)
                && self.routes@.len() > 0 ==> (r matches Ok(c) && c.bind_addr == self.bind_addr->0
                && c.port == (match self.port {
                Some(p) => p,
                None => 8080u16,
            }) && c.workers == (match self.workers {
                Some(n) => n,
                None => 4usize,
            }) && c.routes == self.routes && c.env == self.env),
    {
        let bind_addr = match self.bind_addr {
            Some(a) => a,
            None => return Err(ConfigError::MissingBindAddr),
        };
        let port = match self.port {
            Some(p) => p,
            None => 8080,
        };
        let workers = match self.workers {
            Some(n) => n,
            None => 4,
        };
        if port == 0 {
            return Err(ConfigError::ZeroPort);
        }
        if workers == 0 {
            return Err(ConfigError::ZeroWorkers);
        }
        if self.routes.len() == 0 {
            return Err(ConfigError::NoRoutes);
        }
        Ok(ServerConfig { bind_addr, port, workers, routes: self.routes, env: self.env })
    }
}

} // verus!
