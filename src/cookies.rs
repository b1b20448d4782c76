//! Credentials: ordered `name=value` pairs read from a browser cookie jar,
//! encoded as a cookie header, and refreshed from `Set-Cookie` headers.
use vstd::prelude::*;

use crate::text::{
    chars_of, first_index, first_index_exec, free_of, join_chars, lemma_first_index_after,
    lemma_split_append, lemma_split_free, lemma_trim_space, sub_chars, join_spec, push_all, split_chars, split_seq, string_of, trim,
    trim_chars, views,
};

verus! {

/// The character view of a list of `(name, value)` pairs.
pub open spec fn pair_views(v: Seq<(String, String)>) -> Seq<(Seq<char>, Seq<char>)> {
    v.map_values(|p: (String, String)| (p.0@, p.1@))
}

/// No name occurs twice.
pub open spec fn unique_names(ps: Seq<(Seq<char>, Seq<char>)>) -> bool {
    forall|i: int, j: int| 0 <= i < ps.len() && 0 <= j < ps.len() && i != j ==> ps[i].0 != ps[j].0
}

/// The `(name, value)` that one row of a tab-separated cookie jar gives for
/// `domain`: a row of seven non-empty fields whose first field is `domain`.
pub open spec fn jar_row(line: Seq<char>, domain: Seq<char>) -> Option<(Seq<char>, Seq<char>)> {
    let f = split_seq(line, '\t');
    if f.len() == 7 && f[0] == domain && (forall|k: int| 1 <= k < 7 ==> #[trigger] f[k].len() > 0) {
        Some((f[5], f[6]))
    } else {
        None
    }
}

/// The pairs of the rows that belong to `domain`, in the order of the rows.
pub open spec fn jar_rows(lines: Seq<Seq<char>>, domain: Seq<char>) -> Seq<(Seq<char>, Seq<char>)>
    decreases lines.len(),
{
    if lines.len() == 0 {
        Seq::empty()
    } else {
        let p = jar_rows(lines.drop_last(), domain);
        match jar_row(lines.last(), domain) {
            Some(r) => p.push(r),
            None => p,
        }
    }
}

/// Reading a jar keeps the order of its rows: the rows of two runs of lines are
/// the rows of the first run followed by those of the second.
pub proof fn lemma_jar_rows_order(a: Seq<Seq<char>>, b: Seq<Seq<char>>, domain: Seq<char>)
    ensures
        jar_rows(a + b, domain) == jar_rows(a, domain) + jar_rows(b, domain),
    decreases b.len(),
{
    if b.len() == 0 {
        assert(a + b =~= a);
        assert(jar_rows(a, domain) + jar_rows(b, domain) =~= jar_rows(a, domain));
    } else {
        lemma_jar_rows_order(a, b.drop_last(), domain);
        assert((a + b).drop_last() =~= a + b.drop_last());
        assert((a + b).last() == b.last());
        match jar_row(b.last(), domain) {
            Some(r) => {
                assert(jar_rows(a + b, domain) =~= jar_rows(a, domain) + jar_rows(b, domain));
            },
            None => {},
        }
    }
}

/// A line whose domain field is not `domain` gives no row.
pub proof fn lemma_jar_row_excluded(line: Seq<char>, domain: Seq<char>)
    requires
        split_seq(line, '\t')[0] != domain,
    ensures
        jar_rows(seq![line], domain) == Seq::<(Seq<char>, Seq<char>)>::empty(),
{
    let one = seq![line];
    assert(one.drop_last() =~= Seq::<Seq<char>>::empty());
    assert(one.last() == line);
    assert(jar_row(line, domain) is None);
    assert(jar_rows(one.drop_last(), domain) == Seq::<(Seq<char>, Seq<char>)>::empty());
}

pub open spec fn cookie_sep() -> Seq<char> {
    seq![';', ' ']
}

pub open spec fn pair_item(p: (Seq<char>, Seq<char>)) -> Seq<char> {
    p.0 + seq!['='] + p.1
}

/// A credential as a cookie header: `name=value` items joined by `; `.
pub open spec fn serialize_spec(ps: Seq<(Seq<char>, Seq<char>)>) -> Seq<char> {
    join_spec(ps.map_values(|p: (Seq<char>, Seq<char>)| pair_item(p)), cookie_sep())
}

/// The pair that one `;`-separated piece of a cookie header gives: the trimmed
/// text before the first `=` and the trimmed text after it.
pub open spec fn piece_pair(piece: Seq<char>) -> Option<(Seq<char>, Seq<char>)> {
    let i = first_index(piece, '=');
    if i >= 0 {
        Some((trim(piece.take(i)), trim(piece.skip(i + 1))))
    } else {
        None
    }
}

/// Whether some pair is named `n`.
pub open spec fn has_name(ps: Seq<(Seq<char>, Seq<char>)>, n: Seq<char>) -> bool {
    exists|i: int| 0 <= i < ps.len() && ps[i].0 == n
}

/// `ps` with the value of `kv.0` set to `kv.1`, appended where the name is new.
pub open spec fn upsert(ps: Seq<(Seq<char>, Seq<char>)>, kv: (Seq<char>, Seq<char>)) -> Seq<
    (Seq<char>, Seq<char>),
> {
    if has_name(ps, kv.0) {
        let i = choose|i: int| 0 <= i < ps.len() && ps[i].0 == kv.0;
        ps.update(i, kv)
    } else {
        ps.push(kv)
    }
}

/// The pairs of the pieces, a later piece overriding the value of an earlier name.
pub open spec fn collect_pairs(pieces: Seq<Seq<char>>) -> Seq<(Seq<char>, Seq<char>)>
    decreases pieces.len(),
{
    if pieces.len() == 0 {
        Seq::empty()
    } else {
        let p = collect_pairs(pieces.drop_last());
        match piece_pair(pieces.last()) {
            Some(kv) => upsert(p, kv),
            None => p,
        }
    }
}

/// A cookie header read back into a credential.
pub open spec fn deserialize_spec(s: Seq<char>) -> Seq<(Seq<char>, Seq<char>)> {
    collect_pairs(split_seq(s, ';'))
}

/// The `(name, value)` that a `Set-Cookie` header carries: the part before its
/// first `;`, read as a piece of a cookie header.
pub open spec fn set_cookie_pair(header: Seq<char>) -> Option<(Seq<char>, Seq<char>)> {
    piece_pair(split_seq(header, ';')[0])
}

/// The value that the last of the updates named `n` gives, if any.
pub open spec fn last_value(upd: Seq<(Seq<char>, Seq<char>)>, n: Seq<char>) -> Option<Seq<char>>
    decreases upd.len(),
{
    if upd.len() == 0 {
        None
    } else if upd.last().0 == n {
        Some(upd.last().1)
    } else {
        last_value(upd.drop_last(), n)
    }
}

/// The credential after a refresh: each pair named in the updates takes the
/// new value, or leaves where the new value is empty; other pairs stay as they
/// are, and names that only the updates hold are ignored.
pub open spec fn merge_spec(cur: Seq<(Seq<char>, Seq<char>)>, upd: Seq<(Seq<char>, Seq<char>)>) -> Seq<
    (Seq<char>, Seq<char>),
>
    decreases cur.len(),
{
    if cur.len() == 0 {
        Seq::empty()
    } else {
        let p = merge_spec(cur.drop_last(), upd);
        let n = cur.last().0;
        match last_value(upd, n) {
            Some(u) => if u.len() == 0 {
                p
            } else {
                p.push((n, u))
            },
            None => p.push(cur.last()),
        }
    }
}

/// Whether a pair comes back unchanged through the cookie header encoding:
/// neither part holds `;`, the name holds no `=`, and neither starts or ends
/// with whitespace.
pub open spec fn encodable_pair(p: (Seq<char>, Seq<char>)) -> bool {
    &&& free_of(p.0, ';')
    &&& free_of(p.0, '=')
    &&& free_of(p.1, ';')
    &&& trim(p.0) == p.0
    &&& trim(p.1) == p.1
}

proof fn lemma_item_pair(p: (Seq<char>, Seq<char>), lead: bool)
    requires
        encodable_pair(p),
    ensures
        piece_pair(if lead { seq![' '] + pair_item(p) } else { pair_item(p) }) == Some(p),
        free_of(pair_item(p), ';'),
{
    let first = if lead { seq![' '] + p.0 } else { p.0 };
    assert(free_of(first, '='));
    lemma_first_index_after(first, p.1, '=');
    let item = if lead { seq![' '] + pair_item(p) } else { pair_item(p) };
    assert(item =~= first + seq!['='] + p.1);
    assert(item.take(first.len() as int) =~= first);
    assert(item.skip(first.len() as int + 1) =~= p.1);
    if lead {
        lemma_trim_space(p.0);
    }
    assert(free_of(pair_item(p), ';'));
}

/// Reading back the cookie header of a credential gives the same credential,
/// where no name occurs twice and each pair is encodable.
pub proof fn lemma_cookie_round_trip(ps: Seq<(Seq<char>, Seq<char>)>)
    requires
        unique_names(ps),
        forall|i: int| 0 <= i < ps.len() ==> encodable_pair(#[trigger] ps[i]),
    ensures
        deserialize_spec(serialize_spec(ps)) == ps,
    decreases ps.len(),
{
    let items = ps.map_values(|p: (Seq<char>, Seq<char>)| pair_item(p));
    if ps.len() == 0 {
        assert(serialize_spec(ps) =~= Seq::<char>::empty());
        let e = Seq::<char>::empty();
        assert(split_seq(e, ';') =~= seq![e]);
        assert(split_seq(e, '=') =~= seq![e]);
        assert(seq![e].drop_last() =~= Seq::<Seq<char>>::empty());
        assert(piece_pair(e) is None);
        assert(collect_pairs(seq![e]) == collect_pairs(Seq::<Seq<char>>::empty()));
        assert(deserialize_spec(serialize_spec(ps)) =~= ps);
    } else {
        let q = ps.drop_last();
        let last = ps.last();
        assert(encodable_pair(last));
        assert(!has_name(q, last.0)) by {
            if has_name(q, last.0) {
                let i = choose|i: int| 0 <= i < q.len() && q[i].0 == last.0;
                assert(ps[i].0 == ps[ps.len() - 1].0);
            }
        }
        if ps.len() == 1 {
            lemma_item_pair(last, false);
            assert(serialize_spec(ps) == pair_item(last));
            lemma_split_free(pair_item(last), ';');
            let pieces = seq![pair_item(last)];
            assert(pieces.drop_last() =~= Seq::<Seq<char>>::empty());
            assert(q =~= Seq::<(Seq<char>, Seq<char>)>::empty());
            let empty = Seq::<(Seq<char>, Seq<char>)>::empty();
            assert(collect_pairs(pieces) == upsert(collect_pairs(pieces.drop_last()), last));
            assert(!has_name(empty, last.0));
            assert(upsert(empty, last) =~= ps);
            assert(deserialize_spec(serialize_spec(ps)) =~= ps);
        } else {
            lemma_cookie_round_trip(q);
            lemma_item_pair(last, true);
            let qi = q.map_values(|p: (Seq<char>, Seq<char>)| pair_item(p));
            assert(items.drop_last() =~= qi);
            assert(serialize_spec(ps) == serialize_spec(q) + cookie_sep() + pair_item(last));
            let tail = seq![' '] + pair_item(last);
            assert(serialize_spec(ps) =~= serialize_spec(q) + seq![';'] + tail);
            assert(free_of(tail, ';'));
            lemma_split_append(serialize_spec(q), tail, ';');
            let pieces = split_seq(serialize_spec(q), ';').push(tail);
            assert(pieces.drop_last() =~= split_seq(serialize_spec(q), ';'));
            assert(deserialize_spec(serialize_spec(ps)) == upsert(q, last));
            assert(q.push(last) =~= ps);
        }
    }
}

fn parse_jar_line(line: &Vec<char>, domain: &Vec<char>) -> (r: Option<(String, String)>)
    ensures
        match r {
            Some(p) => jar_row(line@, domain@) == Some((p.0@, p.1@)),
            None => jar_row(line@, domain@) is None,
        },
{
    let f = split_chars(line, '\t');
    proof {
        assert(views(f@).len() == f@.len());
    }
    if f.len() != 7 {
        return None;
    }
    if !crate::text::chars_eq(&f[0], domain) {
        assert(views(f@)[0] == f@[0]@);
        return None;
    }
    let mut k: usize = 1;
    while k < 7
        invariant
            f.len() == 7,
            views(f@) == split_seq(line@, '\t'),
            1 <= k <= 7,
            forall|j: int| 1 <= j < k ==> #[trigger] views(f@)[j].len() > 0,
        decreases 7 - k,
    {
        if f[k].len() == 0 {
            assert(views(f@)[k as int] == f@[k as int]@);
            assert(split_seq(line@, '\t')[k as int].len() == 0);
            return None;
        }
        assert(views(f@)[k as int] == f@[k as int]@);
        k = k + 1;
    }
    assert(views(f@)[0] == f@[0]@);
    assert(views(f@)[5] == f@[5]@);
    assert(views(f@)[6] == f@[6]@);
    Some((string_of(&f[5]), string_of(&f[6])))
}

/// Reads the rows of a tab-separated (Netscape-style) cookie jar whose domain
/// field is `domain`, keeping their order.
pub fn parse_cookie_jar(contents: &str, domain: &str) -> (r: Vec<(String, String)>)
    ensures
        pair_views(r@) == jar_rows(split_seq(contents@, '\n'), domain@),
{
    let text = chars_of(contents);
    let dom = chars_of(domain);
    let lines = split_chars(&text, '\n');
    let mut r: Vec<(String, String)> = Vec::new();
    let mut i: usize = 0;
    while i < lines.len()
        invariant
            i <= lines.len(),
            text@ == contents@,
            dom@ == domain@,
            views(lines@) == split_seq(contents@, '\n'),
            pair_views(r@) == jar_rows(views(lines@).take(i as int), domain@),
        decreases lines.len() - i,
    {
        let ghost t = views(lines@).take(i + 1);
        assert(t.drop_last() =~= views(lines@).take(i as int));
        assert(t.last() == lines@[i as int]@);
        match parse_jar_line(&lines[i], &dom) {
            Some(p) => {
                let ghost prev = r@;
                r.push(p);
                assert(pair_views(r@) =~= pair_views(prev).push((p.0@, p.1@)));
            },
            None => {},
        }
        i = i + 1;
    }
    assert(views(lines@).take(i as int) =~= views(lines@));
    r
}

/// The `(name, value)` pairs that a list of `Set-Cookie` headers carries, in order.
pub open spec fn set_cookie_pairs(headers: Seq<Seq<char>>) -> Seq<(Seq<char>, Seq<char>)>
    decreases headers.len(),
{
    if headers.len() == 0 {
        Seq::empty()
    } else {
        let p = set_cookie_pairs(headers.drop_last());
        match set_cookie_pair(headers.last()) {
            Some(kv) => p.push(kv),
            None => p,
        }
    }
}

fn piece_pair_exec(piece: &Vec<char>) -> (r: Option<(String, String)>)
    ensures
        match r {
            Some(kv) => piece_pair(piece@) == Some((kv.0@, kv.1@)),
            None => piece_pair(piece@) is None,
        },
{
    match first_index_exec(piece, '=') {
        Some(i) => {
            let name = trim_chars(&sub_chars(piece, 0, i));
            let value = trim_chars(&sub_chars(piece, i + 1, piece.len()));
            assert(piece@.subrange(0, i as int) =~= piece@.take(i as int));
            assert(piece@.subrange(i + 1, piece@.len() as int) =~= piece@.skip(i + 1));
            Some((string_of(&name), string_of(&value)))
        },
        None => None,
    }
}

/// Sets the value of `n` to `v`, or appends the pair where `n` is new.
fn upsert_exec(r: &mut Vec<(String, String)>, n: String, v: String)
    requires
        unique_names(pair_views(old(r)@)),
    ensures
        pair_views(final(r)@) == upsert(pair_views(old(r)@), (n@, v@)),
        unique_names(pair_views(final(r)@)),
{
    let ghost pv = pair_views(r@);
    let mut i: usize = 0;
    while i < r.len()
        invariant
            i <= r.len(),
            r@ == old(r)@,
            pv == pair_views(r@),
            unique_names(pv),
            forall|j: int| 0 <= j < i ==> pv[j].0 != n@,
        decreases r.len() - i,
    {
        if r[i].0 == n {
            assert(pv[i as int].0 == n@);
            let ghost k = choose|k: int| 0 <= k < pv.len() && pv[k].0 == n@;
            assert(has_name(pv, n@));
            assert(k == i);
            r.set(i, (n, v));
            assert(pair_views(r@) =~= pv.update(i as int, (n@, v@)));
            return ;
        }
        i = i + 1;
    }
    assert(!has_name(pv, n@));
    r.push((n, v));
    assert(pair_views(r@) =~= pv.push((n@, v@)));
}

/// Encodes a credential as a cookie header: `name=value` items joined by `; `.
pub fn serialize_cookies(map: &Vec<(String, String)>) -> (r: String)
    ensures
        r@ == serialize_spec(pair_views(map@)),
{
    let ghost pv = pair_views(map@);
    let ghost all = pv.map_values(|p: (Seq<char>, Seq<char>)| pair_item(p));
    let mut items: Vec<Vec<char>> = Vec::new();
    let mut i: usize = 0;
    while i < map.len()
        invariant
            i <= map.len(),
            pv == pair_views(map@),
            all == pv.map_values(|p: (Seq<char>, Seq<char>)| pair_item(p)),
            views(items@) == all.take(i as int),
        decreases map.len() - i,
    {
        let mut item = chars_of(map[i].0.as_str());
        item.push('=');
        let value = chars_of(map[i].1.as_str());
        push_all(&mut item, &value);
        let ghost prev = items@;
        assert(pv[i as int] == (map@[i as int].0@, map@[i as int].1@));
        assert(item@ =~= pair_item(pv[i as int]));
        items.push(item);
        assert(views(items@) =~= views(prev).push(item@));
        assert(views(items@) =~= all.take(i + 1));
        i = i + 1;
    }
    assert(all.take(i as int) =~= all);
    let sep = vec![';', ' '];
    assert(sep@ =~= cookie_sep());
    let joined = join_chars(&items, &sep);
    string_of(&joined)
}

/// Reads a cookie header back into a credential: each `;`-separated piece that
/// holds `=` gives a trimmed name and value, and a later piece overrides an
/// earlier one of the same name.
pub fn deserialize_cookies(cookies: &str) -> (r: Vec<(String, String)>)
    ensures
        pair_views(r@) == deserialize_spec(cookies@),
        unique_names(pair_views(r@)),
{
    let text = chars_of(cookies);
    let pieces = split_chars(&text, ';');
    let mut r: Vec<(String, String)> = Vec::new();
    let mut i: usize = 0;
    while i < pieces.len()
        invariant
            i <= pieces.len(),
            views(pieces@) == split_seq(cookies@, ';'),
            pair_views(r@) == collect_pairs(views(pieces@).take(i as int)),
            unique_names(pair_views(r@)),
        decreases pieces.len() - i,
    {
        let ghost t = views(pieces@).take(i + 1);
        assert(t.drop_last() =~= views(pieces@).take(i as int));
        assert(t.last() == pieces@[i as int]@);
        match piece_pair_exec(&pieces[i]) {
            Some(kv) => {
                let (n, v) = kv;
                upsert_exec(&mut r, n, v);
            },
            None => {},
        }
        i = i + 1;
    }
    assert(views(pieces@).take(i as int) =~= views(pieces@));
    r
}

/// Reads the `(name, value)` pair of one `Set-Cookie` header.
pub fn parse_set_cookie(header: &str) -> (r: Option<(String, String)>)
    ensures
        match r {
            Some(kv) => set_cookie_pair(header@) == Some((kv.0@, kv.1@)),
            None => set_cookie_pair(header@) is None,
        },
{
    let text = chars_of(header);
    let parts = split_chars(&text, ';');
    proof {
        crate::text::lemma_split_len(header@, ';');
        assert(views(parts@)[0] == parts@[0]@);
    }
    piece_pair_exec(&parts[0])
}

/// The pairs that the `Set-Cookie` headers of a response carry, in order.
pub fn collect_set_cookies(headers: &Vec<String>) -> (r: Vec<(String, String)>)
    ensures
        pair_views(r@) == set_cookie_pairs(crate::text::string_views(headers@)),
{
    let ghost hv = crate::text::string_views(headers@);
    let mut r: Vec<(String, String)> = Vec::new();
    let mut i: usize = 0;
    while i < headers.len()
        invariant
            i <= headers.len(),
            hv == crate::text::string_views(headers@),
            pair_views(r@) == set_cookie_pairs(hv.take(i as int)),
        decreases headers.len() - i,
    {
        let ghost t = hv.take(i + 1);
        assert(t.drop_last() =~= hv.take(i as int));
        assert(t.last() == headers@[i as int]@);
        match parse_set_cookie(headers[i].as_str()) {
            Some(kv) => {
                let ghost prev = r@;
                r.push(kv);
                assert(pair_views(r@) =~= pair_views(prev).push((kv.0@, kv.1@)));
            },
            None => {},
        }
        i = i + 1;
    }
    assert(hv.take(i as int) =~= hv);
    r
}

fn lookup_last(upd: &Vec<(String, String)>, n: &String) -> (r: Option<String>)
    ensures
        match r {
            Some(v) => last_value(pair_views(upd@), n@) == Some(v@),
            None => last_value(pair_views(upd@), n@) is None,
        },
{
    let ghost pv = pair_views(upd@);
    let mut j: usize = upd.len();
    assert(pv.take(j as int) =~= pv);
    while j > 0
        invariant
            j <= upd.len(),
            pv == pair_views(upd@),
            last_value(pv, n@) == last_value(pv.take(j as int), n@),
        decreases j,
    {
        let ghost t = pv.take(j as int);
        assert(t.drop_last() =~= pv.take(j - 1));
        assert(t.last() == (upd@[j - 1].0@, upd@[j - 1].1@));
        if upd[j - 1].0 == *n {
            return Some(upd[j - 1].1.clone());
        }
        j = j - 1;
    }
    None
}

/// Applies the pairs of a refresh to a credential: a pair whose name the
/// updates hold takes the last such value, or leaves where that value is empty.
pub fn merge_refreshed_cookies(cur: &Vec<(String, String)>, upd: &Vec<(String, String)>) -> (r: Vec<
    (String, String),
>)
    ensures
        pair_views(r@) == merge_spec(pair_views(cur@), pair_views(upd@)),
{
    let ghost cv = pair_views(cur@);
    let mut r: Vec<(String, String)> = Vec::new();
    let mut i: usize = 0;
    while i < cur.len()
        invariant
            i <= cur.len(),
            cv == pair_views(cur@),
            pair_views(r@) == merge_spec(cv.take(i as int), pair_views(upd@)),
        decreases cur.len() - i,
    {
        let ghost t = cv.take(i + 1);
        assert(t.drop_last() =~= cv.take(i as int));
        assert(t.last() == (cur@[i as int].0@, cur@[i as int].1@));
        let ghost prev = r@;
        match lookup_last(upd, &cur[i].0) {
            Some(u) => {
                if !u.as_str().is_empty() {
                    r.push((cur[i].0.clone(), u));
                    assert(pair_views(r@) =~= pair_views(prev).push((cur@[i as int].0@, u@)));
                }
            },
            None => {
                r.push((cur[i].0.clone(), cur[i].1.clone()));
                assert(pair_views(r@) =~= pair_views(prev).push(t.last()));
            },
        }
        i = i + 1;
    }
    assert(cv.take(i as int) =~= cv);
    r
}

/// Joins the values of a response's `Set-Cookie` headers into one cookie header.
pub fn join_cookie_headers(values: &Vec<String>) -> (r: String)
    ensures
        r@ == join_spec(crate::text::string_views(values@), cookie_sep()),
{
    let mut parts: Vec<Vec<char>> = Vec::new();
    let mut i: usize = 0;
    while i < values.len()
        invariant
            i <= values.len(),
            views(parts@) == crate::text::string_views(values@).take(i as int),
        decreases values.len() - i,
    {
        let c = chars_of(values[i].as_str());
        let ghost prev = parts@;
        parts.push(c);
        assert(views(parts@) =~= views(prev).push(c@));
        assert(views(parts@) =~= crate::text::string_views(values@).take(i + 1));
        i = i + 1;
    }
    assert(crate::text::string_views(values@).take(i as int) =~= crate::text::string_views(
        values@,
    ));
    let sep = vec![';', ' '];
    assert(sep@ =~= cookie_sep());
    string_of(&join_chars(&parts, &sep))
}

} // verus!
