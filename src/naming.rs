use vstd::prelude::*;

use crate::structures::{Author, ObjectType};

verus! {

/// The GOST 7.79 system B transliteration of Russian text into Latin
/// letters, as the `translit` crate computes it.
pub uninterp spec fn gost779b_of(s: Seq<char>) -> Seq<char>;

/// Relies on `translit::Transliterator::convert` with the table of
/// `translit::gost779b_ru`: Latin transliteration of the text, a function of
/// the text alone.
#[verifier::external_body]
fn transliterate(s: &str) -> (r: String)
    ensures
        r@ == gost779b_of(s@),
{
    translit::Transliterator::new(translit::gost779b_ru()).convert(s, false)
}

/// Longest file name an archive may get, in bytes, extension included.
pub const MAX_FILENAME_LEN: usize = 64;

/// The non-empty parts joined with `_`, in order.
pub open spec fn join_nonempty(parts: Seq<Seq<char>>) -> Seq<char>
    decreases parts.len(),
{
    if parts.len() == 0 {
        Seq::empty()
    } else {
        let prev = join_nonempty(parts.drop_last());
        let p = parts.last();
        if p.len() == 0 {
            prev
        } else if prev.len() == 0 {
            p
        } else {
            prev + "_"@ + p
        }
    }
}

/// An author's name parts: first, last, then middle (empty when absent).
pub open spec fn author_parts(a: Author) -> Seq<Seq<char>> {
    seq![
        a.first_name@,
        a.last_name@,
        match a.middle_name {
            Some(m) => m@,
            None => Seq::empty(),
        },
    ]
}

/// One-letter mark of the entity kind.
pub open spec fn kind_suffix(t: ObjectType) -> Seq<char> {
    match t {
        ObjectType::Sequence => "s"@,
        ObjectType::Author => "a"@,
        ObjectType::Translator => "t"@,
    }
}

/// The entity's title followed by `_` and its kind's mark.
pub open spec fn marked_title(t: ObjectType, title: Seq<char>) -> Seq<char> {
    title + "_"@ + kind_suffix(t)
}

/// What one character of a transliterated title becomes in a file name:
/// punctuation is dropped, a few symbols are replaced, other ASCII stays,
/// and anything else is dropped.
pub open spec fn clean_char(c: char) -> Seq<char> {
    if c == '(' || c == ')' || c == ',' || c == '…' || c == '.' || c == '’' || c == '!' || c
        == '"' || c == '?' || c == '»' || c == '«' || c == '\'' || c == ':' || c == '`' || c
        == '[' || c == ']' {
        Seq::empty()
    } else if c == '—' || c == '–' {
        "-"@
    } else if c == '/' || c == ' ' || c == '\u{a0}' {
        "_"@
    } else if c == '№' {
        "N"@
    } else if c == 'á' {
        "a"@
    } else if (c as u32) < 128 {
        seq![c]
    } else {
        Seq::empty()
    }
}

/// Each character of `s` cleaned, in order.
pub open spec fn sanitize(s: Seq<char>) -> Seq<char>
    decreases s.len(),
{
    if s.len() == 0 {
        Seq::empty()
    } else {
        sanitize(s.drop_last()) + clean_char(s.last())
    }
}

/// Number of bytes `c` takes in UTF-8.
pub open spec fn char_utf8_len(c: char) -> nat {
    if (c as u32) < 0x80 {
        1
    } else if (c as u32) < 0x800 {
        2
    } else if (c as u32) < 0x10000 {
        3
    } else {
        4
    }
}

/// Number of bytes the text takes in UTF-8.
pub open spec fn utf8_len(s: Seq<char>) -> nat
    decreases s.len(),
{
    if s.len() == 0 {
        0
    } else {
        utf8_len(s.drop_last()) + char_utf8_len(s.last())
    }
}

/// The UTF-8 length of two texts one after the other is the sum of theirs.
pub proof fn lemma_utf8_len_concat(a: Seq<char>, b: Seq<char>)
    ensures
        utf8_len(a + b) == utf8_len(a) + utf8_len(b),
    decreases b.len(),
{
    if b.len() == 0 {
        assert(a + b =~= a);
    } else {
        assert((a + b).drop_last() =~= a + b.drop_last());
        lemma_utf8_len_concat(a, b.drop_last());
    }
}

/// ASCII text takes one byte per character.
pub proof fn lemma_utf8_len_ascii(s: Seq<char>)
    requires
        forall|i: int| 0 <= i < s.len() ==> (#[trigger] s[i] as u32) < 128,
    ensures
        utf8_len(s) == s.len(),
    decreases s.len(),
{
    if s.len() > 0 {
        assert(s.last() == s[s.len() - 1]);
        lemma_utf8_len_ascii(s.drop_last());
    }
}

/// The UTF-8 length of `s` when it is at most `limit`, or `None` when it
/// is more.
fn utf8_len_within(s: &str, limit: usize) -> (r: Option<usize>)
    ensures
        r matches Some(n) ==> n == utf8_len(s@) && n <= limit,
        r is None ==> utf8_len(s@) > limit,
{
    let n = s.unicode_len();
    let mut total: usize = 0;
    for i in 0..n
        invariant
            n == s@.len(),
            total == utf8_len(s@.take(i as int)),
            total <= limit,
    {
        let c = s.get_char(i);
        let w: usize = if (c as u32) < 0x80 {
            1
        } else if (c as u32) < 0x800 {
            2
        } else if (c as u32) < 0x10000 {
            3
        } else {
            4
        };
        assert(s@.take(i + 1).drop_last() =~= s@.take(i as int));
        if w > limit - total {
            proof {
                lemma_utf8_len_prefix(s@, i + 1);
            }
            return None;
        }
        total = total + w;
    }
    assert(s@.take(n as int) =~= s@);
    Some(total)
}

/// A text takes at least as many bytes as any of its prefixes.
proof fn lemma_utf8_len_prefix(s: Seq<char>, k: int)
    requires
        0 <= k <= s.len(),
    ensures
        utf8_len(s.take(k)) <= utf8_len(s),
{
    assert(s =~= s.take(k) + s.skip(k));
    lemma_utf8_len_concat(s.take(k), s.skip(k));
}

/// How many characters of a name of `len` characters are kept before an
/// extension of `ext_len` bytes.
pub open spec fn kept_len(len: nat, ext_len: nat) -> nat {
    if ext_len >= MAX_FILENAME_LEN {
        0
    } else if len <= MAX_FILENAME_LEN - ext_len {
        len
    } else {
        (MAX_FILENAME_LEN - ext_len) as nat
    }
}

/// The archive's extension for `file_format`: `.<format>.zip`.
pub open spec fn archive_extension(file_format: Seq<char>) -> Seq<char> {
    "."@ + file_format + ".zip"@
}

/// The name cut so that it fits, together with the extension, within the
/// longest file name in bytes; the extension is kept whole.
pub open spec fn fit_filename(name: Seq<char>, file_format: Seq<char>) -> Seq<char> {
    let ext = archive_extension(file_format);
    name.take(kept_len(name.len(), utf8_len(ext)) as int) + ext
}

/// Appends `part` to `acc`, separated by `_` when both are non-empty.
fn join_part(acc: &mut String, part: &str)
    ensures
        final(acc)@ == (if part@.len() == 0 {
            old(acc)@
        } else if old(acc)@.len() == 0 {
            part@
        } else {
            old(acc)@ + "_"@ + part@
        }),
{
    if part.unicode_len() == 0 {
        return;
    }
    if acc.as_str().unicode_len() > 0 {
        acc.append("_");
    } else {
        assert(old(acc)@ =~= Seq::<char>::empty());
    }
    acc.append(part);
}

/// An author's or translator's title: first, last and middle name, those
/// that are not empty, joined with `_`.
pub fn author_title(author: &Author) -> (r: String)
    ensures
        r@ == join_nonempty(author_parts(*author)),
{
    let mut r = String::new();
    join_part(&mut r, author.first_name.as_str());
    join_part(&mut r, author.last_name.as_str());
    match &author.middle_name {
        Some(m) => join_part(&mut r, m.as_str()),
        None => {},
    }
    let ghost parts = author_parts(*author);
    assert(parts.drop_last().drop_last().drop_last() =~= Seq::<Seq<char>>::empty());
    assert(parts.drop_last().drop_last() =~= seq![parts[0]]);
    assert(parts.drop_last() =~= seq![parts[0], parts[1]]);
    proof {
        reveal_with_fuel(join_nonempty, 4);
    }
    r
}

/// Appends what `c` becomes in a file name.
fn push_clean(out: &mut String, s: &str, n: usize, i: usize)
    requires
        n == s@.len(),
        i < n,
    ensures
        final(out)@ == old(out)@ + clean_char(s@[i as int]),
{
    let c = s.get_char(i);
    if c == '(' || c == ')' || c == ',' || c == '…' || c == '.' || c == '’' || c == '!' || c
        == '"' || c == '?' || c == '»' || c == '«' || c == '\'' || c == ':' || c == '`' || c
        == '[' || c == ']' {
        assert(out@ =~= old(out)@ + Seq::<char>::empty());
    } else if c == '—' || c == '–' {
        out.append("-");
    } else if c == '/' || c == ' ' || c == '\u{a0}' {
        out.append("_");
    } else if c == '№' {
        out.append("N");
    } else if c == 'á' {
        out.append("a");
    } else if (c as u32) < 128 {
        let one = s.substring_char(i, i + 1);
        assert(one@ =~= seq![c]);
        out.append(one);
    } else {
        assert(out@ =~= old(out)@ + Seq::<char>::empty());
    }
}

/// The characters of `s`, each cleaned for use in a file name.
pub fn sanitize_name(s: &str) -> (r: String)
    ensures
        r@ == sanitize(s@),
{
    let n = s.unicode_len();
    let mut r = String::new();
    for i in 0..n
        invariant
            n == s@.len(),
            r@ == sanitize(s@.take(i as int)),
    {
        push_clean(&mut r, s, n, i);
        assert(s@.take(i + 1).drop_last() =~= s@.take(i as int));
    }
    assert(s@.take(n as int) =~= s@);
    r
}

/// The archive's file name from a transliterated title: the title cleaned,
/// cut to fit, then `.<format>.zip`.
pub fn archive_filename(latin: &str, file_format: &str) -> (r: String)
    ensures
        r@ == fit_filename(sanitize(latin@), file_format@),
        utf8_len(file_format@) + 5 <= MAX_FILENAME_LEN ==> utf8_len(r@) <= MAX_FILENAME_LEN,
{
    let clean = sanitize_name(latin);
    let len = clean.as_str().unicode_len();
    let ghost ext = archive_extension(file_format@);
    proof {
        reveal_strlit(".");
        reveal_strlit(".zip");
        assert("."@ =~= seq!['.']);
        assert(".zip"@ =~= seq!['.', 'z', 'i', 'p']);
        reveal_with_fuel(utf8_len, 5);
        assert(utf8_len("."@) == 1);
        assert(utf8_len(".zip"@) == 4);
        lemma_utf8_len_concat("."@, file_format@);
        lemma_utf8_len_concat("."@ + file_format@, ".zip"@);
    }
    assert(utf8_len(ext) == utf8_len(file_format@) + 5);
    let keep: usize = match utf8_len_within(file_format, MAX_FILENAME_LEN - 5) {
        None => 0,
        Some(ff_bytes) => {
            if ff_bytes >= MAX_FILENAME_LEN - 5 {
                0
            } else if len <= MAX_FILENAME_LEN - 5 - ff_bytes {
                len
            } else {
                MAX_FILENAME_LEN - 5 - ff_bytes
            }
        },
    };
    assert(keep == kept_len(len as nat, utf8_len(ext)));
    let mut r = String::from_str(clean.as_str().substring_char(0, keep));
    assert(r@ =~= clean@.take(keep as int));
    r.append(".");
    r.append(file_format);
    r.append(".zip");
    assert(r@ =~= clean@.take(keep as int) + ext);
    proof {
        lemma_sanitized_is_ascii(latin@);
        let kept = clean@.take(keep as int);
        assert forall|i: int| 0 <= i < kept.len() implies (#[trigger] kept[i] as u32) < 128 by {
            assert(kept[i] == clean@[i]);
        }
        lemma_utf8_len_ascii(kept);
        lemma_utf8_len_concat(kept, ext);
    }
    r
}

/// The file name of the archive of an entity's books, from the entity's
/// title (a sequence's name, or a person's name parts joined with `_`): the
/// title marked with its kind, transliterated into Latin letters, cleaned,
/// and cut so that the name with `.<format>.zip` fits.
pub fn get_filename(object_type: ObjectType, title: &str, file_format: &str) -> (r: String)
    ensures
        r@ == fit_filename(sanitize(gost779b_of(marked_title(object_type, title@))), file_format@),
{
    let mut marked = String::from_str(title);
    marked.append("_");
    match object_type {
        ObjectType::Sequence => marked.append("s"),
        ObjectType::Author => marked.append("a"),
        ObjectType::Translator => marked.append("t"),
    }
    let latin = transliterate(marked.as_str());
    archive_filename(latin.as_str(), file_format)
}

/// A cleaned name holds ASCII characters only.
pub proof fn lemma_sanitized_is_ascii(s: Seq<char>)
    ensures
        forall|i: int| 0 <= i < sanitize(s).len() ==> (#[trigger] sanitize(s)[i] as u32) < 128,
    decreases s.len(),
{
    reveal_strlit("-");
    reveal_strlit("_");
    reveal_strlit("N");
    reveal_strlit("a");
    if s.len() > 0 {
        lemma_sanitized_is_ascii(s.drop_last());
        let prev = sanitize(s.drop_last());
        let tail = clean_char(s.last());
        assert forall|i: int| 0 <= i < sanitize(s).len() implies (#[trigger] sanitize(s)[i] as u32)
            < 128 by {
            if i >= prev.len() {
                assert(sanitize(s)[i] == tail[i - prev.len()]);
            } else {
                assert(sanitize(s)[i] == prev[i]);
            }
        }
    }
}

} // verus!
