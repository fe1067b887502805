//! The compute core of the vendor model-list fetch: request validation,
//! URL joining, extraction of model ids from the decoded response, and
//! normalization of the resulting list.
//!
//! The HTTP exchange itself is I/O and lives with the caller; the response
//! body reaches this module as a plain JSON tree.

use vstd::prelude::*;

use crate::gate::str_eq_str;
use crate::pool::ids_view;

verus! {

/// The base with its trailing slashes dropped.
pub open spec fn trim_trailing_slashes(s: Seq<char>) -> Seq<char>
    decreases s.len(),
{
    if s.len() > 0 && s.last() == '/' {
        trim_trailing_slashes(s.drop_last())
    } else {
        s
    }
}

/// The path, given a leading slash if it lacks one.
pub open spec fn with_leading_slash(p: Seq<char>) -> Seq<char> {
    if p.len() > 0 && p[0] == '/' {
        p
    } else {
        seq!['/'] + p
    }
}

/// What joining a base URL and a path yields: the base without trailing
/// slashes, then the path with exactly one leading slash.
pub open spec fn spec_join_base_url(base: Seq<char>, path: Seq<char>) -> Seq<char> {
    trim_trailing_slashes(base) + with_leading_slash(path)
}

/// Dropping trailing slashes back to a non-slash at `b - 1` is taking the
/// prefix up to `b`.
proof fn lemma_trim_slashes_idx(x: Seq<char>, b: int)
    requires
        0 <= b <= x.len(),
        forall|t: int| b <= t < x.len() ==> x[t] == '/',
        b > 0 ==> x[b - 1] != '/',
    ensures
        trim_trailing_slashes(x) == x.subrange(0, b),
    decreases x.len() - b,
{
    if b < x.len() {
        assert(trim_trailing_slashes(x) == trim_trailing_slashes(x.drop_last()));
        lemma_trim_slashes_idx(x.drop_last(), b);
    } else {
        if x.len() > 0 {
            assert(trim_trailing_slashes(x) == x);
        }
        assert(x.subrange(0, x.len() as int) =~= x);
    }
}

/// Joins a base URL and a path: trailing slashes leave the base, and the
/// path gets exactly one leading slash.
pub fn join_base_url(base: &str, path: &str) -> (r: String)
    ensures
        r@ == spec_join_base_url(base@, path@),
{
    let n = base.unicode_len();
    let mut b: usize = n;
    while b > 0 && base.get_char(b - 1) == '/'
        invariant
            b <= n,
            n == base@.len(),
            forall|t: int| b <= t < n ==> base@[t] == '/',
        decreases b,
    {
        b -= 1;
    }
    proof {
        lemma_trim_slashes_idx(base@, b as int);
    }
    let mut out = base.substring_char(0, b).to_owned();
    let m = path.unicode_len();
    if m > 0 && path.get_char(0) == '/' {
        out.append(path);
        proof {
            assert(out@ == spec_join_base_url(base@, path@));
        }
    } else {
        out.append("/");
        out.append(path);
        proof {
            reveal_strlit("/");
            assert("/"@ =~= seq!['/']);
            assert(out@ == spec_join_base_url(base@, path@));
        }
    }
    out
}

/// A JSON value, as far as the model-list logic reads one: the caller
/// decodes the vendor response into this tree.
pub enum JsonVal {
    /// JSON null.
    Null,
    /// A boolean.
    Bool(bool),
    /// A number, as far as the logic needs one.
    Int(i64),
    /// A string.
    Str(String),
    /// An array.
    Arr(Vec<JsonVal>),
    /// An object: fields in order, keys unique.
    Obj(Vec<(String, JsonVal)>),
}

/// The value of the first field named `key`, if any.
pub open spec fn obj_get(fields: Seq<(String, JsonVal)>, key: Seq<char>) -> Option<JsonVal>
    decreases fields.len(),
{
    if fields.len() == 0 {
        None
    } else if fields[0].0@ == key {
        Some(fields[0].1)
    } else {
        obj_get(fields.drop_first(), key)
    }
}

/// The model id an items-list entry contributes: a string entry is itself
/// an id; an object entry contributes its string `id` field, or failing
/// that its string `name` field.
pub open spec fn item_model_id(item: JsonVal) -> Option<Seq<char>> {
    match item {
        JsonVal::Str(s) => Some(s@),
        JsonVal::Obj(fields) => match obj_get(fields@, "id"@) {
            Some(JsonVal::Str(s)) => Some(s@),
            _ => match obj_get(fields@, "name"@) {
                Some(JsonVal::Str(s)) => Some(s@),
                _ => None,
            },
        },
        _ => None,
    }
}

/// The ids contributed by a list of entries, in order.
pub open spec fn ids_from_items(items: Seq<JsonVal>) -> Seq<Seq<char>>
    decreases items.len(),
{
    if items.len() == 0 {
        Seq::empty()
    } else {
        let rest = ids_from_items(items.drop_last());
        match item_model_id(items.last()) {
            Some(s) => rest.push(s),
            None => rest,
        }
    }
}

/// The model ids a decoded vendor response yields: a top-level array is
/// the items list; a top-level object contributes its `data` array and
/// then its `models` value — an array of items, or a single item.
pub open spec fn spec_extract_model_ids(v: JsonVal) -> Seq<Seq<char>> {
    match v {
        JsonVal::Arr(items) => ids_from_items(items@),
        JsonVal::Obj(fields) => {
            let from_data = match obj_get(fields@, "data"@) {
                Some(JsonVal::Arr(items)) => ids_from_items(items@),
                _ => Seq::empty(),
            };
            let from_models = match obj_get(fields@, "models"@) {
                Some(JsonVal::Arr(items)) => ids_from_items(items@),
                Some(other) => match item_model_id(other) {
                    Some(s) => seq![s],
                    None => Seq::empty(),
                },
                None => Seq::empty(),
            };
            from_data + from_models
        },
        _ => Seq::empty(),
    }
}

/// The value of the first field named `key`, if any; the executable
/// mirror of `obj_get`.
fn obj_get_exec<'a>(fields: &'a Vec<(String, JsonVal)>, key: &str) -> (r: Option<&'a JsonVal>)
    ensures
        match r {
            Some(v) => obj_get(fields@, key@) == Some(*v),
            None => obj_get(fields@, key@) is None,
        },
{
    let mut j: usize = 0;
    proof {
        assert(fields@.skip(0) =~= fields@);
    }
    while j < fields.len()
        invariant
            j <= fields@.len(),
            obj_get(fields@, key@) == obj_get(fields@.skip(j as int), key@),
        decreases fields@.len() - j,
    {
        proof {
            assert(fields@.skip(j as int)[0] == fields@[j as int]);
            assert(fields@.skip(j as int).drop_first() =~= fields@.skip(j + 1));
        }
        if str_eq_str(fields[j].0.as_str(), key) {
            return Some(&fields[j].1);
        }
        j += 1;
    }
    proof {
        assert(fields@.skip(fields@.len() as int).len() == 0);
    }
    None
}

/// The id an entry contributes; the executable mirror of `item_model_id`.
fn item_model_id_exec(item: &JsonVal) -> (r: Option<String>)
    ensures
        match r {
            Some(s) => item_model_id(*item) == Some(s@),
            None => item_model_id(*item) is None,
        },
{
    match item {
        JsonVal::Str(s) => Some(s.clone()),
        JsonVal::Obj(fields) => {
            match obj_get_exec(fields, "id") {
                Some(JsonVal::Str(s)) => Some(s.clone()),
                _ => match obj_get_exec(fields, "name") {
                    Some(JsonVal::Str(s)) => Some(s.clone()),
                    _ => None,
                },
            }
        },
        _ => None,
    }
}

/// Collects the ids contributed by the entries of `items` onto `out`.
fn push_ids_from_items(out: &mut Vec<String>, items: &Vec<JsonVal>)
    ensures
        ids_view(final(out)@) == ids_view(old(out)@) + ids_from_items(items@),
{
    let ghost orig = out@;
    let mut i: usize = 0;
    proof {
        assert(items@.subrange(0, 0) =~= Seq::<JsonVal>::empty());
        assert(ids_view(out@) =~= ids_view(orig) + ids_from_items(items@.subrange(0, 0)));
    }
    while i < items.len()
        invariant
            i <= items@.len(),
            ids_view(out@) == ids_view(orig) + ids_from_items(items@.subrange(0, i as int)),
        decreases items@.len() - i,
    {
        proof {
            assert(items@.subrange(0, i + 1).drop_last() =~= items@.subrange(0, i as int));
            assert(items@.subrange(0, i + 1).last() == items@[i as int]);
        }
        match item_model_id_exec(&items[i]) {
            Some(s) => {
                let ghost sv = s@;
                let ghost pre = out@;
                proof {
                    assert(ids_view(pre) == ids_view(orig) + ids_from_items(
                        items@.subrange(0, i as int),
                    ));
                    assert(ids_view(pre).len() == pre.len());
                    assert(item_model_id(items@[i as int]) == Some(sv));
                    assert(ids_from_items(items@.subrange(0, i + 1)) == ids_from_items(
                        items@.subrange(0, i as int),
                    ).push(sv));
                }
                out.push(s);
                proof {
                    assert(out@ =~= pre.push(out@.last()));
                    assert(out@.last()@ == sv);
                    let lhs = ids_view(out@);
                    let rhs = ids_view(orig) + ids_from_items(items@.subrange(0, i + 1));
                    assert(lhs.len() == rhs.len());
                    assert forall|k: int| 0 <= k < lhs.len() implies lhs[k] == rhs[k] by {
                        assert(lhs[k] == out@[k]@);
                        if k < pre.len() {
                            assert(out@[k] == pre[k]);
                            assert(ids_view(pre)[k] == pre[k]@);
                            assert(rhs[k] == ids_view(pre)[k]);
                        } else {
                            assert(out@[k]@ == sv);
                            assert(rhs[k] == sv);
                        }
                    }
                    assert(lhs =~= rhs);
                }
            },
            None => {
                proof {
                    assert(ids_view(out@) =~= ids_view(orig) + ids_from_items(
                        items@.subrange(0, i + 1),
                    ));
                }
            },
        }
        i += 1;
    }
    proof {
        assert(items@.subrange(0, items@.len() as int) =~= items@);
    }
}

/// Pulls the model ids out of a decoded vendor response.
pub fn extract_model_ids(value: &JsonVal) -> (r: Vec<String>)
    ensures
        ids_view(r@) == spec_extract_model_ids(*value),
{
    let mut out: Vec<String> = Vec::new();
    proof {
        assert(ids_view(out@) =~= Seq::<Seq<char>>::empty());
    }
    match value {
        JsonVal::Arr(items) => {
            push_ids_from_items(&mut out, items);
            proof {
                assert(ids_view(out@) =~= spec_extract_model_ids(*value));
            }
        },
        JsonVal::Obj(fields) => {
            match obj_get_exec(fields, "data") {
                Some(JsonVal::Arr(items)) => {
                    push_ids_from_items(&mut out, items);
                },
                _ => {},
            }
            match obj_get_exec(fields, "models") {
                Some(JsonVal::Arr(items)) => {
                    push_ids_from_items(&mut out, items);
                },
                Some(other) => {
                    match item_model_id_exec(other) {
                        Some(s) => {
                            out.push(s);
                        },
                        None => {},
                    }
                },
                None => {},
            }
            proof {
                assert(ids_view(out@) =~= spec_extract_model_ids(*value));
            }
        },
        _ => {},
    }
    out
}

/// Lexicographic order on character sequences, by code point.
pub open spec fn chars_le(a: Seq<char>, b: Seq<char>) -> bool
    decreases a.len(),
{
    if a.len() == 0 {
        true
    } else if b.len() == 0 {
        false
    } else if a[0] == b[0] {
        chars_le(a.drop_first(), b.drop_first())
    } else {
        (a[0] as int) < (b[0] as int)
    }
}

/// Two sequences equal up to `k` compare as their suffixes from `k` do.
proof fn lemma_chars_le_skip(a: Seq<char>, b: Seq<char>, k: int)
    requires
        0 <= k <= a.len(),
        k <= b.len(),
        forall|t: int| 0 <= t < k ==> a[t] == b[t],
    ensures
        chars_le(a, b) == chars_le(a.skip(k), b.skip(k)),
    decreases k,
{
    if k > 0 {
        assert(a[0] == b[0]);
        assert(chars_le(a, b) == chars_le(a.drop_first(), b.drop_first()));
        assert(a.drop_first() =~= a.skip(1));
        assert(b.drop_first() =~= b.skip(1));
        lemma_chars_le_skip(a.skip(1), b.skip(1), k - 1);
        assert(a.skip(1).skip(k - 1) =~= a.skip(k));
        assert(b.skip(1).skip(k - 1) =~= b.skip(k));
    } else {
        assert(a.skip(0) =~= a);
        assert(b.skip(0) =~= b);
    }
}

/// The order is total: one of the two directions always holds.
pub proof fn lemma_chars_le_total(a: Seq<char>, b: Seq<char>)
    ensures
        chars_le(a, b) || chars_le(b, a),
    decreases a.len(),
{
    if a.len() > 0 && b.len() > 0 && a[0] == b[0] {
        lemma_chars_le_total(a.drop_first(), b.drop_first());
    }
}

/// Compares two strings in the lexicographic order.
pub fn str_le(a: &str, b: &str) -> (r: bool)
    ensures
        r == chars_le(a@, b@),
{
    let n = a.unicode_len();
    let m = b.unicode_len();
    let mut k: usize = 0;
    loop
        invariant
            k <= n,
            k <= m,
            n == a@.len(),
            m == b@.len(),
            forall|t: int| 0 <= t < k ==> a@[t] == b@[t],
        decreases n - k,
    {
        proof {
            lemma_chars_le_skip(a@, b@, k as int);
        }
        if k >= n {
            proof {
                assert(a@.skip(k as int).len() == 0);
            }
            return true;
        }
        if k >= m {
            proof {
                assert(b@.skip(k as int).len() == 0);
                assert(a@.skip(k as int).len() > 0);
            }
            return false;
        }
        let ca = a.get_char(k);
        let cb = b.get_char(k);
        if ca != cb {
            proof {
                assert(a@.skip(k as int)[0] == a@[k as int]);
                assert(b@.skip(k as int)[0] == b@[k as int]);
            }
            return (ca as u32) < (cb as u32);
        }
        k += 1;
    }
}

/// A whitespace character: the Unicode White_Space set, which trimming
/// removes from the ends of a string.
pub open spec fn is_unicode_blank(c: char) -> bool {
    let u = c as u32;
    (0x9 <= u <= 0xD) || u == 0x20 || u == 0x85 || u == 0xA0 || u == 0x1680 || (0x2000 <= u
        <= 0x200A) || u == 0x2028 || u == 0x2029 || u == 0x202F || u == 0x205F || u == 0x3000
}

/// Decides `is_unicode_blank` on one character.
pub fn is_blank_char(c: char) -> (r: bool)
    ensures
        r == is_unicode_blank(c),
{
    let u = c as u32;
    (0x9 <= u && u <= 0xD) || u == 0x20 || u == 0x85 || u == 0xA0 || u == 0x1680 || (0x2000 <= u
        && u <= 0x200A) || u == 0x2028 || u == 0x2029 || u == 0x202F || u == 0x205F || u == 0x3000
}

/// The sequence holds a character that is not whitespace: what survives a
/// trim.
pub open spec fn has_visible_spec(s: Seq<char>) -> bool {
    exists|i: int| 0 <= i < s.len() && !is_unicode_blank(s[i])
}

/// True when the string holds any non-whitespace character; what the
/// normalization keeps.
pub fn has_visible(s: &str) -> (r: bool)
    ensures
        r == has_visible_spec(s@),
{
    let n = s.unicode_len();
    let mut k: usize = 0;
    while k < n
        invariant
            k <= n,
            n == s@.len(),
            forall|t: int| 0 <= t < k ==> is_unicode_blank(s@[t]),
        decreases n - k,
    {
        let c = s.get_char(k);
        if !is_blank_char(c) {
            return true;
        }
        k += 1;
    }
    false
}

/// Appending one string adds exactly its view to the set of views.
proof fn lemma_ids_view_push(s: Seq<String>, x: String, v: Seq<char>)
    ensures
        ids_view(s.push(x)).contains(v) <==> (ids_view(s).contains(v) || v == x@),
{
    assert(ids_view(s.push(x)) =~= ids_view(s).push(x@));
    if ids_view(s).contains(v) {
        let i = choose|i: int| 0 <= i < ids_view(s).len() && ids_view(s)[i] == v;
        assert(ids_view(s.push(x))[i] == v);
    }
    if v == x@ {
        assert(ids_view(s.push(x))[s.len() as int] == v);
    }
    if ids_view(s.push(x)).contains(v) {
        let i = choose|i: int| 0 <= i < ids_view(s.push(x)).len() && ids_view(s.push(x))[i] == v;
        if i < s.len() {
            assert(ids_view(s)[i] == v);
        }
    }
}

/// Keeps the entries holding a visible character, in order.
fn retain_visible(ids: &Vec<String>) -> (r: Vec<String>)
    ensures
        forall|v: Seq<char>|
            #[trigger] ids_view(r@).contains(v) <==> (ids_view(ids@).contains(v)
                && has_visible_spec(v)),
{
    let mut kept: Vec<String> = Vec::new();
    let mut i: usize = 0;
    proof {
        assert(ids_view(kept@) =~= Seq::<Seq<char>>::empty());
    }
    while i < ids.len()
        invariant
            i <= ids@.len(),
            forall|v: Seq<char>|
                #[trigger] ids_view(kept@).contains(v) <==> ((exists|q: int|
                    0 <= q < i && #[trigger] ids@[q]@ == v) && has_visible_spec(v)),
        decreases ids@.len() - i,
    {
        let ghost pre = kept@;
        let visible = has_visible(ids[i].as_str());
        if visible {
            kept.push(ids[i].clone());
        }
        proof {
            assert forall|v: Seq<char>| #[trigger] ids_view(kept@).contains(v) <==> ((exists|
                q: int,
            |
                0 <= q < i + 1 && #[trigger] ids@[q]@ == v) && has_visible_spec(v)) by {
                if visible {
                    lemma_ids_view_push(pre, ids@[i as int], v);
                }
                if ids_view(kept@).contains(v) {
                    if !(exists|q: int| 0 <= q < i && ids@[q]@ == v) {
                        assert(ids@[i as int]@ == v);
                    }
                }
                if (exists|q: int| 0 <= q < i + 1 && ids@[q]@ == v) && has_visible_spec(v) {
                    let q = choose|q: int| 0 <= q < i + 1 && ids@[q]@ == v;
                    if q == i {
                        assert(visible);
                    }
                }
            }
        }
        i += 1;
    }
    proof {
        assert forall|v: Seq<char>| #[trigger] ids_view(kept@).contains(v) implies (ids_view(
            ids@,
        ).contains(v) && has_visible_spec(v)) by {
            let q = choose|q: int| 0 <= q < ids@.len() && ids@[q]@ == v;
            assert(ids_view(ids@)[q] == v);
        }
        assert forall|v: Seq<char>|
            ids_view(ids@).contains(v) && has_visible_spec(v) implies #[trigger] ids_view(
            kept@,
        ).contains(v) by {
            let q = choose|q: int| 0 <= q < ids_view(ids@).len() && ids_view(ids@)[q] == v;
            assert(ids@[q]@ == v);
        }
    }
    kept
}

/// Index of a least entry: every entry held is at or above it.
fn min_index(rest: &Vec<String>) -> (m: usize)
    requires
        rest@.len() > 0,
    ensures
        m < rest@.len(),
        forall|v: Seq<char>|
            #[trigger] ids_view(rest@).contains(v) ==> chars_le(rest@[m as int]@, v),
{
    let mut m: usize = 0;
    let mut j: usize = 1;
    proof {
        lemma_chars_le_refl(rest@[0]@);
    }
    while j < rest.len()
        invariant
            j <= rest@.len(),
            m < rest@.len(),
            rest@.len() > 0,
            forall|t: int| 0 <= t < j ==> chars_le(rest@[m as int]@, #[trigger] rest@[t]@),
        decreases rest@.len() - j,
    {
        if !str_le(rest[m].as_str(), rest[j].as_str()) {
            proof {
                lemma_chars_le_total(rest@[m as int]@, rest@[j as int]@);
                lemma_chars_le_refl(rest@[j as int]@);
                assert forall|t: int| 0 <= t < j + 1 implies chars_le(
                    rest@[j as int]@,
                    #[trigger] rest@[t]@,
                ) by {
                    if t < j {
                        lemma_chars_le_trans(rest@[j as int]@, rest@[m as int]@, rest@[t]@);
                    }
                }
            }
            m = j;
        } else {
            proof {
                assert(chars_le(rest@[m as int]@, rest@[j as int]@));
            }
        }
        j += 1;
    }
    proof {
        assert forall|v: Seq<char>| #[trigger] ids_view(rest@).contains(v) implies chars_le(
            rest@[m as int]@,
            v,
        ) by {
            let t = choose|t: int| 0 <= t < ids_view(rest@).len() && ids_view(rest@)[t] == v;
            assert(rest@[t]@ == v);
        }
    }
    m
}

/// The entries whose value differs from `v`, in order.
fn remove_value(rest: &Vec<String>, v: &String) -> (r: Vec<String>)
    ensures
        forall|w: Seq<char>|
            #[trigger] ids_view(r@).contains(w) <==> (ids_view(rest@).contains(w) && w != v@),
        ids_view(rest@).contains(v@) ==> r@.len() < rest@.len(),
{
    let mut next: Vec<String> = Vec::new();
    let mut t: usize = 0;
    proof {
        assert(ids_view(next@) =~= Seq::<Seq<char>>::empty());
    }
    while t < rest.len()
        invariant
            t <= rest@.len(),
            next@.len() <= t,
            (exists|q: int| 0 <= q < t && #[trigger] rest@[q]@ == v@) ==> next@.len() < t,
            forall|w: Seq<char>|
                #[trigger] ids_view(next@).contains(w) <==> ((exists|q: int|
                    0 <= q < t && #[trigger] rest@[q]@ == w) && w != v@),
        decreases rest@.len() - t,
    {
        let ghost pre = next@;
        let same = str_eq_str(rest[t].as_str(), v.as_str());
        if !same {
            next.push(rest[t].clone());
        }
        proof {
            assert forall|w: Seq<char>| #[trigger] ids_view(next@).contains(w) <==> ((exists|
                q: int,
            |
                0 <= q < t + 1 && #[trigger] rest@[q]@ == w) && w != v@) by {
                if !same {
                    lemma_ids_view_push(pre, rest@[t as int], w);
                }
                if ids_view(next@).contains(w) {
                    if !(exists|q: int| 0 <= q < t && rest@[q]@ == w) {
                        assert(rest@[t as int]@ == w);
                    }
                }
                if (exists|q: int| 0 <= q < t + 1 && rest@[q]@ == w) && w != v@ {
                    let q = choose|q: int| 0 <= q < t + 1 && rest@[q]@ == w;
                    if q == t {
                        assert(!same);
                    }
                }
            }
        }
        t += 1;
    }
    proof {
        assert forall|w: Seq<char>| #[trigger] ids_view(next@).contains(w) <==> (ids_view(
            rest@,
        ).contains(w) && w != v@) by {
            if ids_view(next@).contains(w) {
                let q = choose|q: int| 0 <= q < rest@.len() && rest@[q]@ == w;
                assert(ids_view(rest@)[q] == w);
            }
            if ids_view(rest@).contains(w) {
                let q = choose|q: int| 0 <= q < ids_view(rest@).len() && ids_view(rest@)[q] == w;
                assert(rest@[q]@ == w);
            }
        }
        if ids_view(rest@).contains(v@) {
            let q = choose|q: int| 0 <= q < ids_view(rest@).len() && ids_view(rest@)[q] == v@;
            assert(rest@[q]@ == v@);
        }
    }
    next
}

/// Sorts the entries ascending and collapses duplicates: the result is
/// strictly ascending and holds exactly the values of the input, each once.
fn sort_dedup(start: Vec<String>) -> (r: Vec<String>)
    ensures
        forall|p: int, q: int|
            0 <= p < q < r@.len() ==> chars_le(#[trigger] r@[p]@, #[trigger] r@[q]@) && r@[p]@
                != r@[q]@,
        forall|v: Seq<char>|
            #[trigger] ids_view(r@).contains(v) <==> ids_view(start@).contains(v),
{
    let ghost kept = start@;
    let mut rest = start;
    let mut out: Vec<String> = Vec::new();
    proof {
        assert(ids_view(out@) =~= Seq::<Seq<char>>::empty());
    }
    while rest.len() > 0
        invariant
            forall|p: int, q: int|
                0 <= p < q < out@.len() ==> chars_le(#[trigger] out@[p]@, #[trigger] out@[q]@)
                    && out@[p]@ != out@[q]@,
            forall|v: Seq<char>, w: Seq<char>|
                #[trigger] ids_view(out@).contains(v) && #[trigger] ids_view(rest@).contains(w)
                    ==> chars_le(v, w) && v != w,
            forall|v: Seq<char>|
                #[trigger] ids_view(out@).contains(v) ==> ids_view(kept).contains(v),
            forall|v: Seq<char>|
                #[trigger] ids_view(rest@).contains(v) ==> ids_view(kept).contains(v),
            forall|v: Seq<char>|
                #[trigger] ids_view(kept).contains(v) ==> ids_view(out@).contains(v) || ids_view(
                    rest@,
                ).contains(v),
        decreases rest@.len(),
    {
        let ghost oldout = out@;
        let ghost oldrest = rest@;
        let m = min_index(&rest);
        let least = rest[m].clone();
        let ghost mv = oldrest[m as int]@;
        proof {
            assert(ids_view(oldrest)[m as int] == mv);
            assert(ids_view(oldrest).contains(mv));
        }
        out.push(least);
        proof {
            assert(out@ =~= oldout.push(oldrest[m as int]));
            assert forall|p: int, q: int|
                0 <= p < q < out@.len() implies chars_le(#[trigger] out@[p]@, #[trigger] out@[q]@)
                && out@[p]@ != out@[q]@ by {
                if q == out@.len() - 1 {
                    assert(ids_view(oldout)[p] == oldout[p]@);
                    assert(ids_view(oldout).contains(oldout[p]@));
                    assert(out@[q]@ == mv);
                }
            }
        }
        let filtered = remove_value(&rest, &rest[m]);
        rest = filtered;
        proof {
            assert forall|v: Seq<char>, w: Seq<char>|
                #[trigger] ids_view(out@).contains(v) && #[trigger] ids_view(rest@).contains(w)
                implies chars_le(v, w) && v != w by {
                lemma_ids_view_push(oldout, oldrest[m as int], v);
                assert(ids_view(oldrest).contains(w) && w != mv);
                if v == mv {
                    assert(chars_le(mv, w));
                }
            }
            assert forall|v: Seq<char>| #[trigger] ids_view(out@).contains(v) implies ids_view(
                kept,
            ).contains(v) by {
                lemma_ids_view_push(oldout, oldrest[m as int], v);
            }
            assert forall|v: Seq<char>| #[trigger] ids_view(kept).contains(v) implies ids_view(
                out@,
            ).contains(v) || ids_view(rest@).contains(v) by {
                lemma_ids_view_push(oldout, oldrest[m as int], v);
                if ids_view(oldrest).contains(v) && v != mv {
                    assert(ids_view(rest@).contains(v));
                }
            }
        }
    }
    proof {
        assert(ids_view(rest@).len() == 0);
        assert forall|v: Seq<char>| #[trigger] ids_view(out@).contains(v) <==> ids_view(
            kept,
        ).contains(v) by {
            if ids_view(kept).contains(v) {
                if ids_view(rest@).contains(v) {
                    let i = choose|i: int|
                        0 <= i < ids_view(rest@).len() && ids_view(rest@)[i] == v;
                    assert(false);
                }
            }
        }
    }
    out
}

/// Normalizes a model-id list: entries holding no visible character are
/// dropped, the rest are sorted in ascending lexicographic order, and
/// duplicates collapse to one. The result is strictly ascending and holds
/// exactly the visible entries of the input, each once.
pub fn normalize_model_ids(ids: &Vec<String>) -> (r: Vec<String>)
    ensures
        forall|p: int, q: int|
            0 <= p < q < r@.len() ==> chars_le(#[trigger] r@[p]@, #[trigger] r@[q]@) && r@[p]@
                != r@[q]@,
        forall|v: Seq<char>|
            #[trigger] ids_view(r@).contains(v) <==> (ids_view(ids@).contains(v)
                && has_visible_spec(v)),
{
    let kept = retain_visible(ids);
    sort_dedup(kept)
}

/// The order relates every sequence to itself.
pub proof fn lemma_chars_le_refl(a: Seq<char>)
    ensures
        chars_le(a, a),
    decreases a.len(),
{
    if a.len() > 0 {
        lemma_chars_le_refl(a.drop_first());
    }
}

/// The order carries across a middle element.
pub proof fn lemma_chars_le_trans(a: Seq<char>, b: Seq<char>, c: Seq<char>)
    requires
        chars_le(a, b),
        chars_le(b, c),
    ensures
        chars_le(a, c),
    decreases a.len(),
{
    if a.len() > 0 && b.len() > 0 && c.len() > 0 {
        if a[0] == b[0] && b[0] == c[0] {
            lemma_chars_le_trans(a.drop_first(), b.drop_first(), c.drop_first());
        }
    }
}

} // verus!
