use vstd::prelude::*;

use crate::structures::{CreateTask, ObjectType};

verus! {

/// How one character is written inside a JSON string: quote and backslash
/// behind a backslash, the usual short escapes, other control characters as
/// `\u00` and two lowercase hex digits, everything else as it is.
pub open spec fn json_escape_char(c: char) -> Seq<char> {
    if c == '"' {
        "\\\""@
    } else if c == '\\' {
        "\\\\"@
    } else if c == '\u{8}' {
        "\\b"@
    } else if c == '\u{c}' {
        "\\f"@
    } else if c == '\n' {
        "\\n"@
    } else if c == '\r' {
        "\\r"@
    } else if c == '\t' {
        "\\t"@
    } else if (c as u32) < 0x20 {
        "\\u00"@ + seq![
            digit_chars()[((c as u32) / 16) as int],
            digit_chars()[((c as u32) % 16) as int],
        ]
    } else {
        seq![c]
    }
}

/// Each character of `s` as written inside a JSON string.
pub open spec fn json_escaped(s: Seq<char>) -> Seq<char>
    decreases s.len(),
{
    if s.len() == 0 {
        Seq::empty()
    } else {
        json_escaped(s.drop_last()) + json_escape_char(s.last())
    }
}

/// The compact JSON string holding the given characters, quotes included.
pub open spec fn json_string_of(s: Seq<char>) -> Seq<char> {
    "\""@ + json_escaped(s) + "\""@
}

/// The MD5 digest of the UTF-8 encoding of the given characters.
pub uninterp spec fn md5_of(s: Seq<char>) -> Seq<u8>;

/// Relies on serde_json's `Display` for `Value::String`: the compact JSON form
/// of one string, escaped by the table of `serde_json::ser::ESCAPE`.
#[verifier::external_body]
fn json_string(s: &str) -> (r: String)
    ensures
        r@ == json_string_of(s@),
{
    serde_json::Value::String(s.to_string()).to_string()
}

/// Relies on `md5::compute`: the 16-byte digest of the string's bytes.
#[verifier::external_body]
fn md5_digest(s: &str) -> (r: Vec<u8>)
    ensures
        r@ == md5_of(s@),
        r@.len() == 16,
{
    md5::compute(s.as_bytes()).0.to_vec()
}

// ---------------------------------------------------------------------------
// Ordering of strings by code point, the order std's `Ord` on `String` has.
/// `a` sorts strictly before `b`, comparing code points from the left.
pub open spec fn str_lt(a: Seq<char>, b: Seq<char>) -> bool
    decreases a.len(),
{
    if a.len() == 0 {
        b.len() > 0
    } else if b.len() == 0 {
        false
    } else if a[0] != b[0] {
        (a[0] as int) < (b[0] as int)
    } else {
        str_lt(a.drop_first(), b.drop_first())
    }
}

/// No string sorts before itself.
pub proof fn lemma_str_lt_irreflexive(a: Seq<char>)
    ensures
        !str_lt(a, a),
    decreases a.len(),
{
    if a.len() > 0 {
        lemma_str_lt_irreflexive(a.drop_first());
    }
}

/// The order is transitive.
pub proof fn lemma_str_lt_transitive(a: Seq<char>, b: Seq<char>, c: Seq<char>)
    requires
        str_lt(a, b),
        str_lt(b, c),
    ensures
        str_lt(a, c),
    decreases a.len(),
{
    if a.len() > 0 && b.len() > 0 && c.len() > 0 && a[0] == b[0] && b[0] == c[0] {
        lemma_str_lt_transitive(a.drop_first(), b.drop_first(), c.drop_first());
    }
}

/// Of two different strings, one sorts before the other.
pub proof fn lemma_str_lt_total(a: Seq<char>, b: Seq<char>)
    requires
        a != b,
    ensures
        str_lt(a, b) || str_lt(b, a),
    decreases a.len(),
{
    if a.len() > 0 && b.len() > 0 {
        if a[0] == b[0] {
            if a.drop_first() == b.drop_first() {
                assert(a =~= seq![a[0]] + a.drop_first());
                assert(b =~= seq![b[0]] + b.drop_first());
            }
            lemma_str_lt_total(a.drop_first(), b.drop_first());
        } else {
            assert((a[0] as int) != (b[0] as int));
        }
    } else if a.len() == 0 && b.len() == 0 {
        assert(a =~= b);
    }
}

/// Every element sorts strictly before every later one: sorted, no repeats.
pub open spec fn strictly_sorted(s: Seq<Seq<char>>) -> bool {
    forall|i: int, j: int| 0 <= i < j < s.len() ==> str_lt(#[trigger] s[i], #[trigger] s[j])
}

/// `n` is the language list `langs` sorted with repeats removed.
pub open spec fn is_normal_form(langs: Set<Seq<char>>, n: Seq<Seq<char>>) -> bool {
    strictly_sorted(n) && n.to_set() == langs
}

/// The sorted, repeat-free sequence of the given set of languages.
pub open spec fn sorted_of_set(langs: Set<Seq<char>>) -> Seq<Seq<char>> {
    choose|n: Seq<Seq<char>>| is_normal_form(langs, n)
}

/// The normal form of a language list: its distinct entries in sorted order.
pub open spec fn normalized_langs(langs: Seq<Seq<char>>) -> Seq<Seq<char>> {
    sorted_of_set(langs.to_set())
}

/// Two strictly sorted sequences with the same elements are equal.
pub proof fn lemma_sorted_unique(a: Seq<Seq<char>>, b: Seq<Seq<char>>)
    requires
        strictly_sorted(a),
        strictly_sorted(b),
        a.to_set() == b.to_set(),
    ensures
        a == b,
    decreases a.len(),
{
    if a.len() == 0 {
        if b.len() > 0 {
            assert(b.to_set().contains(b[0]));
        }
        assert(a =~= b);
        return;
    }
    if b.len() == 0 {
        assert(a.to_set().contains(a[0]));
        return;
    }
    assert(a.to_set().contains(a[0]));
    assert(b.to_set().contains(b[0]));
    let j = choose|j: int| 0 <= j < b.len() && b[j] == a[0];
    let i = choose|i: int| 0 <= i < a.len() && a[i] == b[0];
    if j > 0 {
        assert(str_lt(b[0], b[j]));
        if i == 0 {
            lemma_str_lt_irreflexive(b[0]);
        } else {
            assert(str_lt(a[0], a[i]));
            lemma_str_lt_transitive(a[0], b[0], a[0]);
            lemma_str_lt_irreflexive(a[0]);
        }
    }
    assert(a[0] == b[0]);
    let a1 = a.drop_first();
    let b1 = b.drop_first();
    assert forall|y: Seq<char>| a1.to_set().contains(y) implies b1.to_set().contains(y) by {
        let m = choose|m: int| 0 <= m < a1.len() && a1[m] == y;
        assert(a.to_set().contains(a[m + 1]));
        let k = choose|k: int| 0 <= k < b.len() && b[k] == y;
        if k == 0 {
            assert(str_lt(a[0], a[m + 1]));
            lemma_str_lt_irreflexive(a[0]);
        }
        assert(b1[k - 1] == y);
    }
    assert forall|y: Seq<char>| b1.to_set().contains(y) implies a1.to_set().contains(y) by {
        let m = choose|m: int| 0 <= m < b1.len() && b1[m] == y;
        assert(b.to_set().contains(b[m + 1]));
        let k = choose|k: int| 0 <= k < a.len() && a[k] == y;
        if k == 0 {
            assert(str_lt(b[0], b[m + 1]));
            lemma_str_lt_irreflexive(b[0]);
        }
        assert(a1[k - 1] == y);
    }
    assert(a1.to_set() =~= b1.to_set());
    lemma_sorted_unique(a1, b1);
    assert(a =~= seq![a[0]] + a1);
    assert(b =~= seq![b[0]] + b1);
}

/// A sequence in normal form for a set is the one that `sorted_of_set` picks.
pub proof fn lemma_normal_form_is_sorted_of_set(langs: Set<Seq<char>>, n: Seq<Seq<char>>)
    requires
        is_normal_form(langs, n),
    ensures
        sorted_of_set(langs) == n,
{
    let m = sorted_of_set(langs);
    assert(is_normal_form(langs, m));
    lemma_sorted_unique(m, n);
}

// ---------------------------------------------------------------------------
// The canonical serialized form of a request.
pub open spec fn digit_chars() -> Seq<char> {
    "0123456789abcdef"@
}

/// Decimal digits of `n`, most significant first.
pub open spec fn decimal(n: nat) -> Seq<char>
    decreases n,
{
    if n < 10 {
        seq![digit_chars()[n as int]]
    } else {
        decimal(n / 10) + seq![digit_chars()[(n % 10) as int]]
    }
}

/// `c` is a digit of lowercase hexadecimal: `0`-`9` or `a`-`f`.
pub open spec fn is_lower_hex_digit(c: char) -> bool {
    (48 <= (c as u32) <= 57) || (97 <= (c as u32) <= 102)
}

/// The digit table holds sixteen lowercase hexadecimal digits.
pub proof fn lemma_digit_chars()
    ensures
        digit_chars().len() == 16,
        forall|d: int| 0 <= d < 16 ==> is_lower_hex_digit(#[trigger] digit_chars()[d]),
{
    reveal_strlit("0123456789abcdef");
    assert(digit_chars() =~= seq![
        '0', '1', '2', '3', '4', '5', '6', '7', '8', '9', 'a', 'b', 'c', 'd', 'e', 'f',
    ]);
}

/// The hex form of `bytes` has two lowercase hexadecimal digits per byte.
pub proof fn lemma_hex_of_shape(bytes: Seq<u8>)
    ensures
        hex_of(bytes).len() == 2 * bytes.len(),
        forall|i: int| 0 <= i < hex_of(bytes).len() ==> is_lower_hex_digit(#[trigger] hex_of(bytes)[i]),
    decreases bytes.len(),
{
    lemma_digit_chars();
    if bytes.len() > 0 {
        let prev = bytes.drop_last();
        lemma_hex_of_shape(prev);
        let b = bytes.last();
        let h = hex_of(bytes);
        let hp = hex_of(prev);
        assert(h == hp + seq![digit_chars()[(b / 16) as int], digit_chars()[(b % 16) as int]]);
        assert forall|i: int| 0 <= i < h.len() implies is_lower_hex_digit(#[trigger] h[i]) by {
            if i < hp.len() {
                assert(h[i] == hp[i]);
            } else if i == hp.len() {
                assert(h[i] == digit_chars()[(b / 16) as int]);
            } else {
                assert(h[i] == digit_chars()[(b % 16) as int]);
            }
        }
    }
}

/// Two lowercase hexadecimal digits per byte.
pub open spec fn hex_of(bytes: Seq<u8>) -> Seq<char>
    decreases bytes.len(),
{
    if bytes.len() == 0 {
        Seq::empty()
    } else {
        let b = bytes.last();
        hex_of(bytes.drop_last()) + seq![
            digit_chars()[(b / 16) as int],
            digit_chars()[(b % 16) as int],
        ]
    }
}

/// The JSON name of an entity kind.
pub open spec fn object_type_json(t: ObjectType) -> Seq<char> {
    match t {
        ObjectType::Sequence => "\"sequence\""@,
        ObjectType::Author => "\"author\""@,
        ObjectType::Translator => "\"translator\""@,
    }
}

/// JSON strings of the items, separated by commas.
pub open spec fn json_items(items: Seq<Seq<char>>) -> Seq<char>
    decreases items.len(),
{
    if items.len() == 0 {
        Seq::empty()
    } else if items.len() == 1 {
        json_string_of(items[0])
    } else {
        json_items(items.drop_last()) + ","@ + json_string_of(items.last())
    }
}

/// The compact JSON object of a request whose language list is normalized.
pub open spec fn canonical_form(
    object_id: u32,
    object_type: ObjectType,
    file_format: Seq<char>,
    langs: Seq<Seq<char>>,
) -> Seq<char> {
    "{\"object_id\":"@ + decimal(object_id as nat) + ",\"object_type\":"@ + object_type_json(
        object_type,
    ) + ",\"file_format\":"@ + json_string_of(file_format) + ",\"allowed_langs\":["@
        + json_items(normalized_langs(langs)) + "]}"@
}

/// The task id of a request: the hex MD5 digest of its canonical form.
pub open spec fn task_id(r: CreateTask) -> Seq<char> {
    hex_of(
        md5_of(
            canonical_form(
                r.object_id,
                r.object_type,
                r.file_format@,
                r.allowed_langs.deep_view(),
            ),
        ),
    )
}

// ---------------------------------------------------------------------------
// Executable side.
/// Whether `a` sorts strictly before `b`.
pub fn str_less(a: &str, b: &str) -> (r: bool)
    ensures
        r == str_lt(a@, b@),
{
    let la = a.unicode_len();
    let lb = b.unicode_len();
    let mut i: usize = 0;
    assert(a@.skip(0) =~= a@);
    assert(b@.skip(0) =~= b@);
    while i < la && i < lb
        invariant
            la == a@.len(),
            lb == b@.len(),
            i <= la,
            i <= lb,
            str_lt(a@, b@) == str_lt(a@.skip(i as int), b@.skip(i as int)),
        decreases la - i,
    {
        let ca = a.get_char(i);
        let cb = b.get_char(i);
        let ghost sa = a@.skip(i as int);
        let ghost sb = b@.skip(i as int);
        assert(sa[0] == ca && sb[0] == cb);
        if ca != cb {
            return (ca as u32) < (cb as u32);
        }
        assert(sa.drop_first() =~= a@.skip(i + 1));
        assert(sb.drop_first() =~= b@.skip(i + 1));
        i = i + 1;
    }
    i == la && i < lb
}

/// Inserts `x` into the strictly sorted `v` unless it is already there.
fn insert_sorted(v: &mut Vec<String>, x: &String)
    requires
        strictly_sorted(old(v).deep_view()),
    ensures
        strictly_sorted(final(v).deep_view()),
        final(v).deep_view().to_set() == old(v).deep_view().to_set().insert(x@),
{
    let ghost s0 = v.deep_view();
    assert(strictly_sorted(s0));
    let mut i: usize = 0;
    while i < v.len()
        invariant
            v.deep_view() == s0,
            strictly_sorted(s0),
            i <= v.len(),
            forall|k: int| 0 <= k < i ==> str_lt(#[trigger] s0[k], x@),
        ensures
            v.deep_view() == s0,
            i <= v.len(),
            forall|k: int| 0 <= k < i ==> str_lt(#[trigger] s0[k], x@),
            i < v.len() ==> str_lt(x@, s0[i as int]),
        decreases v.len() - i,
    {
        if v[i] == *x {
            assert(s0[i as int] == x@);
            assert(s0.to_set().insert(x@) =~= s0.to_set());
            return;
        }
        if str_less(x.as_str(), v[i].as_str()) {
            break;
        }
        proof {
            lemma_str_lt_total(s0[i as int], x@);
        }
        i = i + 1;
    }
    proof {
        if i < s0.len() {
            assert(str_lt(x@, s0[i as int]));
        }
        assert forall|k: int| i <= k < s0.len() implies str_lt(x@, #[trigger] s0[k]) by {
            if k > i {
                lemma_str_lt_transitive(x@, s0[i as int], s0[k]);
            }
        }
    }
    v.insert(i, x.clone());
    let ghost s1 = v.deep_view();
    assert(s1 =~= s0.insert(i as int, x@));
    assert forall|a: int, b: int| 0 <= a < b < s1.len() implies str_lt(
        #[trigger] s1[a],
        #[trigger] s1[b],
    ) by {
        if a < i && b > i {
            lemma_str_lt_transitive(s1[a], x@, s1[b]);
        }
    }
    assert forall|y: Seq<char>| #[trigger] s1.contains(y) <==> s0.to_set().insert(x@).contains(
        y,
    ) by {
        if s1.contains(y) {
            let k = choose|k: int| 0 <= k < s1.len() && s1[k] == y;
            if k < i {
                assert(s0[k] == y);
            } else if k > i {
                assert(s0[k - 1] == y);
            }
        }
        if s0.contains(y) {
            let k = choose|k: int| 0 <= k < s0.len() && s0[k] == y;
            if k < i {
                assert(s1[k] == y);
            } else {
                assert(s1[k + 1] == y);
            }
        }
        if y == x@ {
            assert(s1[i as int] == y);
        }
    }
    assert(s1.to_set() =~= s0.to_set().insert(x@));
}

/// The language list sorted, with repeated entries removed.
pub fn normalize_langs(langs: &Vec<String>) -> (r: Vec<String>)
    ensures
        r.deep_view() == normalized_langs(langs.deep_view()),
{
    let mut r: Vec<String> = Vec::new();
    let ghost l = langs.deep_view();
    for i in 0..langs.len()
        invariant
            l == langs.deep_view(),
            strictly_sorted(r.deep_view()),
            r.deep_view().to_set() == l.subrange(0, i as int).to_set(),
    {
        insert_sorted(&mut r, &langs[i]);
        assert(l.subrange(0, i + 1) =~= l.subrange(0, i as int).push(l[i as int]));
        proof {
            l.subrange(0, i as int).lemma_push_to_set_commute(l[i as int]);
        }
    }
    assert(l.subrange(0, langs.len() as int) =~= l);
    proof {
        lemma_normal_form_is_sorted_of_set(l.to_set(), r.deep_view());
    }
    r
}

/// Appends digit `d` (a hexadecimal digit, lowercase) to `out`.
pub(crate) fn push_digit(out: &mut String, d: usize)
    requires
        d < 16,
    ensures
        final(out)@ == old(out)@ + seq![digit_chars()[d as int]],
{
    let table = "0123456789abcdef";
    proof {
        reveal_strlit("0123456789abcdef");
    }
    let one = table.substring_char(d, d + 1);
    assert(one@ =~= seq![digit_chars()[d as int]]);
    out.append(one);
}

/// Appends the decimal digits of `n` to `out`.
pub(crate) fn push_decimal(out: &mut String, n: u64)
    ensures
        final(out)@ == old(out)@ + decimal(n as nat),
    decreases n,
{
    if n < 10 {
        push_digit(out, n as usize);
    } else {
        push_decimal(out, n / 10);
        push_digit(out, (n % 10) as usize);
        assert(out@ =~= old(out)@ + decimal(n as nat));
    }
}

/// Lowercase hexadecimal form of the bytes, two digits each.
pub fn to_hex(bytes: &Vec<u8>) -> (r: String)
    ensures
        r@ == hex_of(bytes@),
{
    let mut r = String::new();
    for i in 0..bytes.len()
        invariant
            r@ == hex_of(bytes@.subrange(0, i as int)),
    {
        let b = bytes[i];
        push_digit(&mut r, (b / 16) as usize);
        push_digit(&mut r, (b % 16) as usize);
        let ghost pre = bytes@.subrange(0, i + 1);
        assert(pre.drop_last() =~= bytes@.subrange(0, i as int));
        assert(r@ =~= hex_of(pre));
    }
    assert(bytes@.subrange(0, bytes.len() as int) =~= bytes@);
    r
}

/// The canonical JSON form of a request, with its language list normalized.
pub fn canonical_json(data: &CreateTask) -> (r: String)
    ensures
        r@ == canonical_form(
            data.object_id,
            data.object_type,
            data.file_format@,
            data.allowed_langs.deep_view(),
        ),
{
    let langs = normalize_langs(&data.allowed_langs);
    let mut r = String::from_str("{\"object_id\":");
    push_decimal(&mut r, data.object_id as u64);
    r.append(",\"object_type\":");
    match data.object_type {
        ObjectType::Sequence => r.append("\"sequence\""),
        ObjectType::Author => r.append("\"author\""),
        ObjectType::Translator => r.append("\"translator\""),
    }
    r.append(",\"file_format\":");
    let ff = json_string(data.file_format.as_str());
    r.append(ff.as_str());
    r.append(",\"allowed_langs\":[");
    let ghost head = r@;
    let ghost n = langs.deep_view();
    for i in 0..langs.len()
        invariant
            n == langs.deep_view(),
            r@ == head + json_items(n.subrange(0, i as int)),
    {
        if i > 0 {
            r.append(",");
        }
        let item = json_string(langs[i].as_str());
        r.append(item.as_str());
        let ghost pre = n.subrange(0, i + 1);
        assert(pre.drop_last() =~= n.subrange(0, i as int));
        assert(r@ =~= head + json_items(pre));
    }
    assert(n.subrange(0, langs.len() as int) =~= n);
    r.append("]}");
    r
}

/// The task id of a request: requests that agree on every field, their
/// language lists compared as sets, get the same id.
pub fn get_key(input_data: CreateTask) -> (r: String)
    ensures
        r@ == task_id(input_data),
        r@.len() == 32,
        forall|i: int| 0 <= i < r@.len() ==> is_lower_hex_digit(#[trigger] r@[i]),
{
    let json = canonical_json(&input_data);
    let digest = md5_digest(json.as_str());
    proof {
        lemma_hex_of_shape(digest@);
    }
    to_hex(&digest)
}

/// Requests that differ only in the order of their languages, or in
/// languages listed more than once, get the same task id.
pub proof fn lemma_task_id_ignores_lang_order(a: CreateTask, b: CreateTask)
    requires
        a.object_id == b.object_id,
        a.object_type == b.object_type,
        a.file_format@ == b.file_format@,
        a.allowed_langs.deep_view().to_set() == b.allowed_langs.deep_view().to_set(),
    ensures
        task_id(a) == task_id(b),
{
    assert(normalized_langs(a.allowed_langs.deep_view()) == normalized_langs(
        b.allowed_langs.deep_view(),
    ));
}

} // verus!
