use vstd::prelude::*;
use vstd::string::*;
use vstd::slice::slice_to_vec;
use vstd::utf8::{encode_utf8, valid_utf8};

verus! {

/// `pat` occurs in `s` starting at position `i`.
pub open spec fn occurs_at(s: Seq<u8>, pat: Seq<u8>, i: int) -> bool {
    &&& 0 <= i
    &&& i + pat.len() <= s.len()
    &&& s.subrange(i, i + pat.len()) == pat
}

/// How many bytes the character whose encoding starts with `b` takes; a
/// byte that cannot start one counts as one.
pub open spec fn lead_width(b: u8) -> int {
    if b >= 0xF0 {
        4
    } else if b >= 0xE0 {
        3
    } else if b >= 0xC0 {
        2
    } else {
        1
    }
}

/// The length of the first character of a nonempty `s`, cut at its end.
pub open spec fn first_char_len(s: Seq<u8>) -> int {
    if lead_width(s[0]) <= s.len() {
        lead_width(s[0])
    } else {
        s.len() as int
    }
}

/// The substitution of an empty pattern: `to` before every character and
/// once more at the end (`ab` becomes `xaxbx` for `to == x`).
pub open spec fn insert_around_chars(s: Seq<u8>, to: Seq<u8>) -> Seq<u8>
    decreases s.len(),
{
    if s.len() == 0 {
        to
    } else {
        to + s.subrange(0, first_char_len(s)) + insert_around_chars(
            s.subrange(first_char_len(s), s.len() as int),
            to,
        )
    }
}

/// Literal substitution, scanning left to right: every non-overlapping
/// occurrence of a nonempty `from` is replaced by `to`; an empty `from`
/// occurs before every character and at the end. Working on bytes gives the
/// same text as working on characters when text and pattern are well-formed
/// UTF-8: the encoding of a character never begins inside the encoding of
/// another.
pub open spec fn replace_all(s: Seq<u8>, from: Seq<u8>, to: Seq<u8>) -> Seq<u8>
    decreases s.len(),
{
    if from.len() == 0 {
        insert_around_chars(s, to)
    } else if s.len() == 0 {
        s
    } else if occurs_at(s, from, 0) {
        to + replace_all(s.subrange(from.len() as int, s.len() as int), from, to)
    } else {
        seq![s[0]] + replace_all(s.subrange(1, s.len() as int), from, to)
    }
}

/// What an entry holds in the rewritten tree: a well-formed UTF-8 entry gets
/// the substitution, any other entry (and every entry when there is no rule)
/// keeps its bytes.
pub open spec fn rewritten_content(bytes: Seq<u8>, rule: Option<(Seq<char>, Seq<char>)>) -> Seq<u8> {
    match rule {
        Some(r) => if valid_utf8(bytes) {
            replace_all(bytes, encode_utf8(r.0), encode_utf8(r.1))
        } else {
            bytes
        },
        None => bytes,
    }
}

/// The view of a rewrite rule given as two strings.
pub open spec fn rule_view(rule: Option<(String, String)>) -> Option<(Seq<char>, Seq<char>)> {
    match rule {
        Some(r) => Some((r.0@, r.1@)),
        None => None,
    }
}

/// Relies on `std::str::from_utf8`: it succeeds exactly on well-formed UTF-8.
#[verifier::external_body]
fn is_utf8(bytes: &[u8]) -> (r: bool)
    ensures
        r == valid_utf8(bytes@),
{
    std::str::from_utf8(bytes).is_ok()
}

/// Whether `pat` occurs in `text` at `i`.
pub fn pattern_occurs_at(text: &[u8], pat: &[u8], i: usize) -> (r: bool)
    ensures
        r == occurs_at(text@, pat@, i as int),
{
    if i > text.len() || pat.len() > text.len() - i {
        return false;
    }
    let n = text.len();
    let mut k: usize = 0;
    while k < pat.len()
        invariant
            n == text@.len(),
            i + pat@.len() <= text@.len(),
            k <= pat@.len(),
            forall|j: int| 0 <= j < k ==> text@[i + j] == #[trigger] pat@[j],
        decreases pat@.len() - k,
    {
        if text[i + k] != pat[k] {
            assert(text@.subrange(i as int, i + pat@.len())[k as int] != pat@[k as int]);
            return false;
        }
        k = k + 1;
    }
    assert(text@.subrange(i as int, i + pat@.len()) =~= pat@);
    true
}

proof fn lemma_replace_all_step(s: Seq<u8>, from: Seq<u8>, to: Seq<u8>, i: int)
    requires
        from.len() > 0,
        0 <= i < s.len(),
    ensures
        occurs_at(s, from, i) ==> replace_all(s.subrange(i, s.len() as int), from, to)
            == to + replace_all(s.subrange(i + from.len(), s.len() as int), from, to),
        !occurs_at(s, from, i) ==> replace_all(s.subrange(i, s.len() as int), from, to)
            == seq![s[i]] + replace_all(s.subrange(i + 1, s.len() as int), from, to),
{
    let t = s.subrange(i, s.len() as int);
    if occurs_at(s, from, i) {
        assert(t.subrange(0, from.len() as int) =~= s.subrange(i, i + from.len()));
        assert(t.subrange(from.len() as int, t.len() as int) =~= s.subrange(i + from.len(), s.len() as int));
    } else {
        if occurs_at(t, from, 0) {
            assert(t.subrange(0, from.len() as int) =~= s.subrange(i, i + from.len()));
        }
        assert(t.subrange(1, t.len() as int) =~= s.subrange(i + 1, s.len() as int));
    }
}

fn append_bytes(out: &mut Vec<u8>, src: &[u8], lo: usize, hi: usize)
    requires
        lo <= hi <= src@.len(),
    ensures
        final(out)@ == old(out)@ + src@.subrange(lo as int, hi as int),
{
    let ghost start = out@;
    let mut k = lo;
    while k < hi
        invariant
            lo <= k <= hi <= src@.len(),
            out@ == start + src@.subrange(lo as int, k as int),
        decreases hi - k,
    {
        out.push(src[k]);
        k = k + 1;
        assert(out@ =~= start + src@.subrange(lo as int, k as int));
    }
}

fn lead_width_of(b: u8) -> (r: usize)
    ensures
        r == lead_width(b),
{
    if b >= 0xF0 {
        4
    } else if b >= 0xE0 {
        3
    } else if b >= 0xC0 {
        2
    } else {
        1
    }
}

/// `to` before every character of `text` and once more at the end.
fn insert_around(text: &[u8], to: &[u8]) -> (r: Vec<u8>)
    ensures
        r@ == insert_around_chars(text@, to@),
{
    let n = text.len();
    let mut out: Vec<u8> = Vec::new();
    let mut i: usize = 0;
    assert(text@.subrange(0, n as int) =~= text@);
    while i < n
        invariant
            n == text@.len(),
            i <= n,
            out@ + insert_around_chars(text@.subrange(i as int, n as int), to@) == insert_around_chars(text@, to@),
        decreases n - i,
    {
        let ghost before = out@;
        let ghost rest = text@.subrange(i as int, n as int);
        let w = lead_width_of(text[i]);
        let end = if w <= n - i { i + w } else { n };
        assert(rest[0] == text@[i as int]);
        assert(first_char_len(rest) == end - i);
        assert(rest.subrange(0, end - i) =~= text@.subrange(i as int, end as int));
        assert(rest.subrange(end - i, rest.len() as int) =~= text@.subrange(end as int, n as int));
        append_bytes(&mut out, to, 0, to.len());
        append_bytes(&mut out, text, i, end);
        assert(to@.subrange(0, to@.len() as int) =~= to@);
        assert(out@ + insert_around_chars(text@.subrange(end as int, n as int), to@) =~= before + (to@
            + rest.subrange(0, first_char_len(rest)) + insert_around_chars(
            rest.subrange(first_char_len(rest), rest.len() as int),
            to@,
        )));
        i = end;
    }
    assert(text@.subrange(n as int, n as int) =~= Seq::<u8>::empty());
    append_bytes(&mut out, to, 0, to.len());
    assert(to@.subrange(0, to@.len() as int) =~= to@);
    out
}

/// Replaces every occurrence of `from` in `text` by `to`, scanning left to right.
pub fn replace_bytes(text: &[u8], from: &[u8], to: &[u8]) -> (r: Vec<u8>)
    ensures
        r@ == replace_all(text@, from@, to@),
{
    let mut out: Vec<u8> = Vec::new();
    if from.len() == 0 {
        return insert_around(text, to);
    }
    let mut i: usize = 0;
    assert(text@.subrange(0, text@.len() as int) =~= text@);
    while i < text.len()
        invariant
            from@.len() > 0,
            i <= text@.len(),
            out@ + replace_all(text@.subrange(i as int, text@.len() as int), from@, to@)
                == replace_all(text@, from@, to@),
        decreases text@.len() - i,
    {
        proof {
            lemma_replace_all_step(text@, from@, to@, i as int);
        }
        if pattern_occurs_at(text, from, i) {
            let ghost before = out@;
            let mut k: usize = 0;
            while k < to.len()
                invariant
                    k <= to@.len(),
                    out@ == before + to@.subrange(0, k as int),
                decreases to@.len() - k,
            {
                out.push(to[k]);
                k = k + 1;
                assert(out@ =~= before + to@.subrange(0, k as int));
            }
            assert(to@.subrange(0, to@.len() as int) =~= to@);
            assert(out@ + replace_all(text@.subrange(i + from@.len(), text@.len() as int), from@, to@)
                =~= before + (to@ + replace_all(text@.subrange(i + from@.len(), text@.len() as int), from@, to@)));
            i = i + from.len();
        } else {
            let ghost before = out@;
            out.push(text[i]);
            assert(out@ + replace_all(text@.subrange(i + 1, text@.len() as int), from@, to@)
                =~= before + (seq![text@[i as int]] + replace_all(text@.subrange(i + 1, text@.len() as int), from@, to@)));
            i = i + 1;
        }
    }
    assert(text@.subrange(i as int, text@.len() as int) =~= Seq::<u8>::empty());
    assert(out@ + Seq::<u8>::empty() =~= out@);
    out
}

/// The bytes that an entry gets in the rewritten tree.
pub fn rewrite_entry(bytes: &[u8], rule: &Option<(String, String)>) -> (r: Vec<u8>)
    ensures
        r@ == rewritten_content(bytes@, rule_view(*rule)),
{
    match rule {
        Some((from, to)) => {
            if is_utf8(bytes) {
                replace_bytes(bytes, from.as_str().as_bytes(), to.as_str().as_bytes())
            } else {
                slice_to_vec(bytes)
            }
        },
        None => slice_to_vec(bytes),
    }
}

/// Text in which a nonempty pattern never occurs comes out of the
/// substitution unchanged.
pub proof fn lemma_replace_without_occurrence(s: Seq<u8>, from: Seq<u8>, to: Seq<u8>)
    requires
        from.len() > 0,
        forall|i: int| 0 <= i < s.len() ==> !occurs_at(s, from, i),
    ensures
        replace_all(s, from, to) == s,
    decreases s.len(),
{
    if from.len() > 0 && s.len() > 0 {
        assert(!occurs_at(s, from, 0));
        let t = s.subrange(1, s.len() as int);
        assert forall|j: int| 0 <= j < t.len() implies !occurs_at(t, from, j) by {
            if occurs_at(t, from, j) {
                assert(s.subrange(j + 1, j + 1 + from.len()) =~= t.subrange(j, j + from.len()));
                assert(occurs_at(s, from, j + 1));
            }
        }
        lemma_replace_without_occurrence(t, from, to);
        assert(seq![s[0]] + t =~= s);
    }
}

/// The substitution at work: when the first occurrence of `from` in a text
/// starts right after `a` (the text is `a`, then `from`, then `b`), the
/// result is `a` unchanged, then `to`, then the substitution applied to `b`.
pub proof fn lemma_replace_first_occurrence(a: Seq<u8>, b: Seq<u8>, from: Seq<u8>, to: Seq<u8>)
    requires
        from.len() > 0,
        forall|i: int| 0 <= i < a.len() ==> !occurs_at(a + from + b, from, i),
    ensures
        replace_all(a + from + b, from, to) == a + to + replace_all(b, from, to),
    decreases a.len(),
{
    let s = a + from + b;
    if a.len() == 0 {
        assert(a + from + b =~= from + b);
        assert(s.subrange(0, from.len() as int) =~= from);
        assert(s.subrange(from.len() as int, s.len() as int) =~= b);
        assert(a + to + replace_all(b, from, to) =~= to + replace_all(b, from, to));
    } else {
        assert(!occurs_at(s, from, 0));
        let a1 = a.subrange(1, a.len() as int);
        assert(s.subrange(1, s.len() as int) =~= a1 + from + b);
        assert forall|i: int| 0 <= i < a1.len() implies !occurs_at(a1 + from + b, from, i) by {
            let t = a1 + from + b;
            if occurs_at(t, from, i) {
                assert(s.subrange(i + 1, i + 1 + from.len()) =~= t.subrange(i, i + from.len()));
                assert(occurs_at(s, from, i + 1));
            }
        }
        lemma_replace_first_occurrence(a1, b, from, to);
        assert(seq![a[0]] + (a1 + to + replace_all(b, from, to)) =~= a + to + replace_all(b, from, to));
    }
}

/// An entry that is not well-formed UTF-8 is copied byte for byte into the
/// rewritten tree, whatever the rule.
pub proof fn lemma_binary_entry_unchanged(bytes: Seq<u8>, rule: Option<(Seq<char>, Seq<char>)>)
    requires
        !valid_utf8(bytes),
    ensures
        rewritten_content(bytes, rule) == bytes,
{
}

} // verus!
