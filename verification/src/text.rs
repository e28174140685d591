//! Text handling: trimming, case folding, substring search, the tag list
//! syntax (comma separated) and byte-wise ordering of strings.
use vstd::prelude::*;
use vstd::utf8::encode_utf8;

verus! {

broadcast use vstd::string::group_string_axioms;

/// The Unicode `White_Space` property, the set of characters for which
/// `char::is_whitespace` holds.
pub open spec fn is_white_space(c: char) -> bool {
    let u = c as u32;
    ||| 0x9 <= u <= 0xD
    ||| u == 0x20
    ||| u == 0x85
    ||| u == 0xA0
    ||| u == 0x1680
    ||| 0x2000 <= u <= 0x200A
    ||| u == 0x2028
    ||| u == 0x2029
    ||| u == 0x202F
    ||| u == 0x205F
    ||| u == 0x3000
}

/// `s` without its leading white space.
pub open spec fn trim_start(s: Seq<char>) -> Seq<char>
    decreases s.len(),
{
    if s.len() > 0 && is_white_space(s[0]) {
        trim_start(s.drop_first())
    } else {
        s
    }
}

/// `s` without its trailing white space.
pub open spec fn trim_end(s: Seq<char>) -> Seq<char>
    decreases s.len(),
{
    if s.len() > 0 && is_white_space(s.last()) {
        trim_end(s.drop_last())
    } else {
        s
    }
}

/// `s` without leading and trailing white space.
pub open spec fn trimmed(s: Seq<char>) -> Seq<char> {
    trim_end(trim_start(s))
}

/// The lower-case form of a string, as `str::to_lowercase` computes it by the
/// Unicode case mapping.
pub uninterp spec fn lowercase(s: Seq<char>) -> Seq<char>;

/// `p` occurs in `s` as a contiguous run of characters.
pub open spec fn has_infix(s: Seq<char>, p: Seq<char>) -> bool {
    exists|i: int| 0 <= i <= s.len() - p.len() && #[trigger] s.subrange(i, i + p.len()) == p
}

/// `str::trim`: the contract states the documented behaviour, removal of the
/// leading and trailing characters that have the Unicode `White_Space` property.
#[verifier::external_body]
pub(crate) fn str_trim(s: &str) -> (r: &str)
    ensures
        r@ == trimmed(s@),
{
    s.trim()
}

/// `str::to_lowercase`: the result is named by `lowercase`, since the Unicode
/// case mapping it applies is not stated here; only that the lower-case form
/// of the empty string is empty.
#[verifier::external_body]
fn str_to_lowercase(s: &str) -> (r: String)
    ensures
        r@ == lowercase(s@),
        s@.len() == 0 ==> r@.len() == 0,
{
    s.to_lowercase()
}

/// `str::contains` with a string pattern: whether the pattern occurs in `s`.
#[verifier::external_body]
fn str_contains(s: &str, p: &str) -> (r: bool)
    ensures
        r == has_infix(s@, p@),
{
    s.contains(p)
}

/// `String::push`: appends one character.
#[verifier::external_body]
pub(crate) fn string_push(s: &mut String, c: char)
    ensures
        final(s)@ == old(s)@.push(c),
{
    s.push(c)
}

/// `String::pop`: removes and returns the last character, if any.
#[verifier::external_body]
pub(crate) fn string_pop(s: &mut String) -> (r: Option<char>)
    ensures
        old(s)@.len() == 0 ==> r is None && final(s)@ == old(s)@,
        old(s)@.len() > 0 ==> r == Some(old(s)@.last()) && final(s)@ == old(s)@.drop_last(),
{
    s.pop()
}

/// The characters of `s`, in order.
pub fn chars_of(s: &str) -> (v: Vec<char>)
    ensures
        v@ == s@,
{
    let mut v: Vec<char> = Vec::new();
    for c in it: s.chars()
        invariant
            v@ == it.seq().take(it.index() as int),
            it.seq() == s@,
    {
        v.push(c);
    }
    v
}

/// `s` with leading and trailing white space removed.
pub fn trim_to_string(s: &str) -> (r: String)
    ensures
        r@ == trimmed(s@),
{
    str_trim(s).to_string()
}

/// The lower-case form of `s`.
pub fn to_lowercase(s: &str) -> (r: String)
    ensures
        r@ == lowercase(s@),
        s@.len() == 0 ==> r@.len() == 0,
{
    str_to_lowercase(s)
}

/// Case-insensitive substring test: the lower-case form of `query` occurs in
/// the lower-case form of `text`.
pub open spec fn matches_query(text: Seq<char>, query: Seq<char>) -> bool {
    has_infix(lowercase(text), lowercase(query))
}

/// Whether `lowered` occurs in the lower-case form of `text`.
pub fn lower_contains(text: &str, lowered: &str) -> (r: bool)
    ensures
        r == has_infix(lowercase(text@), lowered@),
{
    let t = str_to_lowercase(text);
    str_contains(t.as_str(), lowered)
}


/// The fields of `s` separated by `sep`; a string without `sep` is one field,
/// and the empty string is one empty field.
pub open spec fn split_on(s: Seq<char>, sep: char) -> Seq<Seq<char>>
    decreases s.len(),
{
    if s.len() == 0 {
        seq![Seq::<char>::empty()]
    } else {
        let fields = split_on(s.drop_last(), sep);
        if s.last() == sep {
            fields.push(Seq::<char>::empty())
        } else {
            fields.update(fields.len() - 1, fields.last().push(s.last()))
        }
    }
}

/// The fields, each trimmed, with the fields that are empty after trimming left out.
pub open spec fn kept_fields(fields: Seq<Seq<char>>) -> Seq<Seq<char>>
    decreases fields.len(),
{
    if fields.len() == 0 {
        Seq::<Seq<char>>::empty()
    } else {
        let rest = kept_fields(fields.drop_last());
        let t = trimmed(fields.last());
        if t.len() > 0 {
            rest.push(t)
        } else {
            rest
        }
    }
}

/// The tags that a comma separated tag line denotes: its comma separated
/// fields, trimmed, without the empty ones.
pub open spec fn parsed_tags(line: Seq<char>) -> Seq<Seq<char>> {
    kept_fields(split_on(line, ','))
}

/// `parts` joined with `sep` between neighbours.
pub open spec fn joined(parts: Seq<Seq<char>>, sep: Seq<char>) -> Seq<char>
    decreases parts.len(),
{
    if parts.len() == 0 {
        Seq::<char>::empty()
    } else if parts.len() == 1 {
        parts[0]
    } else {
        joined(parts.drop_last(), sep) + sep + parts.last()
    }
}

proof fn lemma_split_on_nonempty(s: Seq<char>, sep: char)
    ensures
        split_on(s, sep).len() >= 1,
    decreases s.len(),
{
    if s.len() > 0 {
        lemma_split_on_nonempty(s.drop_last(), sep);
    }
}

proof fn lemma_kept_fields_push(fields: Seq<Seq<char>>, f: Seq<char>)
    ensures
        kept_fields(fields.push(f)) == (if trimmed(f).len() > 0 {
            kept_fields(fields).push(trimmed(f))
        } else {
            kept_fields(fields)
        }),
{
    assert(fields.push(f).drop_last() =~= fields);
}

/// Appends to `out` the trimmed field `line[start..end]` unless it is empty.
fn keep_field(line: &str, start: usize, end: usize, out: &mut Vec<String>)
    requires
        start <= end <= line@.len(),
    ensures
        final(out)@.len() <= old(out)@.len() + 1,
        ({
            let t = trimmed(line@.subrange(start as int, end as int));
            &&& t.len() > 0 ==> final(out).deep_view() == old(out).deep_view().push(t)
            &&& t.len() == 0 ==> final(out)@ == old(out)@
        }),
{
    let field = line.substring_char(start, end);
    let t = str_trim(field);
    if !t.is_empty() {
        out.push(t.to_string());
        proof {
            assert(final(out).deep_view() =~= old(out).deep_view().push(t@));
        }
    }
}

/// The tags written in a comma separated line: each field trimmed, the empty
/// ones left out.
pub fn parse_tags(line: &str) -> (tags: Vec<String>)
    ensures
        tags.deep_view() == parsed_tags(line@),
{
    let cs = chars_of(line);
    let n = cs.len();
    let mut tags: Vec<String> = Vec::new();
    let mut start: usize = 0;
    let ghost mut closed: Seq<Seq<char>> = Seq::empty();
    proof {
        assert(cs@.take(0) =~= Seq::<char>::empty());
        assert(line@.subrange(0, 0) =~= Seq::<char>::empty());
        assert(split_on(cs@.take(0), ',') =~= closed.push(line@.subrange(0, 0)));
    }
    for i in 0..n
        invariant
            n == cs@.len(),
            cs@ == line@,
            start <= i,
            split_on(cs@.take(i as int), ',') == closed.push(line@.subrange(start as int, i as int)),
            tags.deep_view() == kept_fields(closed),
    {
        let ghost prev = cs@.take(i as int);
        proof {
            assert(cs@.take(i + 1).drop_last() =~= prev);
            assert(cs@.take(i + 1).last() == cs@[i as int]);
        }
        if cs[i] == ',' {
            keep_field(line, start, i, &mut tags);
            proof {
                lemma_kept_fields_push(closed, line@.subrange(start as int, i as int));
                closed = closed.push(line@.subrange(start as int, i as int));
                assert(line@.subrange(i + 1, i + 1) =~= Seq::<char>::empty());
            }
            start = i + 1;
        } else {
            proof {
                let f = line@.subrange(start as int, i as int);
                assert(f.push(cs@[i as int]) =~= line@.subrange(start as int, i + 1));
                assert(closed.push(f).update(closed.len() as int, f.push(cs@[i as int]))
                    =~= closed.push(line@.subrange(start as int, i + 1)));
            }
        }
    }
    keep_field(line, start, n, &mut tags);
    proof {
        assert(cs@.take(n as int) =~= cs@);
        lemma_kept_fields_push(closed, line@.subrange(start as int, n as int));
    }
    tags
}

/// The tags joined with `", "`, the form in which they are offered for editing.
pub fn join_tags(tags: &Vec<String>) -> (line: String)
    ensures
        line@ == joined(tags.deep_view(), ", "@),
{
    let mut line = String::new();
    let n = tags.len();
    for i in 0..n
        invariant
            n == tags@.len(),
            line@ == joined(tags.deep_view().take(i as int), ", "@),
    {
        let ghost prefix = tags.deep_view().take(i as int);
        proof {
            assert(tags.deep_view().take(i + 1).drop_last() =~= prefix);
        }
        if i > 0 {
            line.append(", ");
        } else {
            proof {
                assert(line@ =~= Seq::<char>::empty());
            }
        }
        line.append(tags[i].as_str());
        proof {
            let next = tags.deep_view().take(i + 1);
            assert(next.last() == tags[i as int]@);
            if i == 0 {
                assert(next.len() == 1);
                assert(line@ =~= next[0]);
            }
        }
    }
    proof {
        assert(tags.deep_view().take(n as int) =~= tags.deep_view());
    }
    line
}


/// Lexicographic order of byte strings, the order in which `str` values compare.
pub open spec fn bytes_lt(a: Seq<u8>, b: Seq<u8>) -> bool
    decreases a.len(),
{
    if a.len() == 0 {
        b.len() > 0
    } else if b.len() == 0 {
        false
    } else if a[0] != b[0] {
        a[0] < b[0]
    } else {
        bytes_lt(a.drop_first(), b.drop_first())
    }
}

/// The key by which strings are ordered case-insensitively: the UTF-8 bytes
/// of their lower-case form.
pub open spec fn folded_key(s: Seq<char>) -> Seq<u8> {
    encode_utf8(lowercase(s))
}

pub proof fn lemma_bytes_lt_irreflexive(a: Seq<u8>)
    ensures
        !bytes_lt(a, a),
    decreases a.len(),
{
    if a.len() > 0 {
        lemma_bytes_lt_irreflexive(a.drop_first());
    }
}

pub proof fn lemma_bytes_lt_transitive(a: Seq<u8>, b: Seq<u8>, c: Seq<u8>)
    requires
        bytes_lt(a, b),
        bytes_lt(b, c),
    ensures
        bytes_lt(a, c),
    decreases a.len(),
{
    if a.len() > 0 && b.len() > 0 && c.len() > 0 && a[0] == b[0] && b[0] == c[0] {
        lemma_bytes_lt_transitive(a.drop_first(), b.drop_first(), c.drop_first());
    }
}

pub proof fn lemma_bytes_lt_total(a: Seq<u8>, b: Seq<u8>)
    requires
        a != b,
    ensures
        bytes_lt(a, b) || bytes_lt(b, a),
    decreases a.len(),
{
    if a.len() > 0 && b.len() > 0 && a[0] == b[0] {
        if a.drop_first() == b.drop_first() {
            assert(a =~= seq![a[0]] + a.drop_first());
            assert(b =~= seq![b[0]] + b.drop_first());
        }
        lemma_bytes_lt_total(a.drop_first(), b.drop_first());
    } else if a.len() == 0 && b.len() == 0 {
        assert(a =~= b);
    }
}

proof fn lemma_bytes_lt_skip(a: Seq<u8>, b: Seq<u8>, i: int)
    requires
        0 <= i < a.len(),
        i < b.len(),
        a[i] == b[i],
    ensures
        bytes_lt(a.skip(i), b.skip(i)) == bytes_lt(a.skip(i + 1), b.skip(i + 1)),
{
    assert(a.skip(i).drop_first() =~= a.skip(i + 1));
    assert(b.skip(i).drop_first() =~= b.skip(i + 1));
}

/// Byte-wise lexicographic comparison.
pub fn bytes_less(a: &[u8], b: &[u8]) -> (r: bool)
    ensures
        r == bytes_lt(a@, b@),
{
    let mut i: usize = 0;
    proof {
        assert(a@.skip(0) =~= a@);
        assert(b@.skip(0) =~= b@);
    }
    while i < a.len() && i < b.len()
        invariant
            i <= a@.len(),
            i <= b@.len(),
            bytes_lt(a@, b@) == bytes_lt(a@.skip(i as int), b@.skip(i as int)),
        decreases a@.len() - i,
    {
        if a[i] != b[i] {
            return a[i] < b[i];
        }
        proof {
            lemma_bytes_lt_skip(a@, b@, i as int);
        }
        i = i + 1;
    }
    i < b.len()
}

/// Whether `a` comes before `b` when both are compared in lower case.
pub fn folded_less(a: &str, b: &str) -> (r: bool)
    ensures
        r == bytes_lt(folded_key(a@), folded_key(b@)),
{
    let la = str_to_lowercase(a);
    let lb = str_to_lowercase(b);
    bytes_less(la.as_str().as_bytes(), lb.as_str().as_bytes())
}


/// A tag that comes back unchanged from being joined into a tag line and
/// parsed again: not empty, without surrounding white space, without a comma.
pub open spec fn clean_tag(t: Seq<char>) -> bool {
    &&& t.len() > 0
    &&& trimmed(t) == t
    &&& !t.contains(',')
}

proof fn lemma_split_without_sep(s: Seq<char>, sep: char)
    requires
        !s.contains(sep),
    ensures
        split_on(s, sep) == seq![s],
    decreases s.len(),
{
    if s.len() == 0 {
        assert(s =~= Seq::<char>::empty());
        assert(split_on(s, sep) =~= seq![s]);
    } else {
        let p = s.drop_last();
        assert(!p.contains(sep)) by {
            if p.contains(sep) {
                let k = choose|k: int| 0 <= k < p.len() && p[k] == sep;
                assert(s[k] == sep);
            }
        }
        lemma_split_without_sep(p, sep);
        assert(s[s.len() - 1] != sep);
        assert(p.push(s.last()) =~= s);
        let f = split_on(p, sep);
        assert(f == seq![p]);
        assert(split_on(s, sep) == f.update(f.len() - 1, f.last().push(s.last())));
        assert(f.last() == p);
        assert(f.update(f.len() - 1, f.last().push(s.last())) =~= seq![s]);
    }
}

proof fn lemma_split_after_sep(s: Seq<char>, sep: char, b: Seq<char>)
    requires
        !b.contains(sep),
    ensures
        split_on(s + seq![sep] + b, sep) == split_on(s, sep).push(b),
    decreases b.len(),
{
    let x = s + seq![sep] + b;
    lemma_split_on_nonempty(s, sep);
    if b.len() == 0 {
        assert(b =~= Seq::<char>::empty());
        assert(x.drop_last() =~= s);
        assert(x.last() == sep);
    } else {
        let b0 = b.drop_last();
        assert(!b0.contains(sep)) by {
            if b0.contains(sep) {
                let k = choose|k: int| 0 <= k < b0.len() && b0[k] == sep;
                assert(b[k] == sep);
            }
        }
        lemma_split_after_sep(s, sep, b0);
        assert(x.drop_last() =~= s + seq![sep] + b0);
        assert(b[b.len() - 1] != sep);
        assert(x.last() == b.last());
        let f = split_on(s, sep).push(b0);
        assert(b0.push(b.last()) =~= b);
        assert(f.update(f.len() - 1, f.last().push(b.last())) =~= split_on(s, sep).push(b));
    }
}

proof fn lemma_trim_leading_space(t: Seq<char>)
    ensures
        trimmed(seq![' '] + t) == trimmed(t),
{
    let x = seq![' '] + t;
    assert(x[0] == ' ');
    assert(is_white_space(' '));
    assert(x.drop_first() =~= t);
}

/// Joining clean tags with `", "` and parsing the line gives back the tags.
pub proof fn lemma_parse_joined_tags(tags: Seq<Seq<char>>)
    requires
        forall|i: int| 0 <= i < tags.len() ==> clean_tag(#[trigger] tags[i]),
    ensures
        parsed_tags(joined(tags, ", "@)) == tags,
    decreases tags.len(),
{
    reveal_strlit(", ");
    if tags.len() == 0 {
        let e = Seq::<char>::empty();
        assert(split_on(e, ',') =~= seq![e]);
        assert(trimmed(e) =~= e);
        assert(seq![e].drop_last() =~= Seq::<Seq<char>>::empty());
        assert(joined(tags, ", "@) == e);
        lemma_kept_fields_push(Seq::<Seq<char>>::empty(), e);
        assert(seq![e] =~= Seq::<Seq<char>>::empty().push(e));
        assert(kept_fields(Seq::<Seq<char>>::empty()) =~= Seq::<Seq<char>>::empty());
        assert(kept_fields(seq![e]) =~= Seq::<Seq<char>>::empty());
        assert(parsed_tags(joined(tags, ", "@)) =~= tags);
    } else if tags.len() == 1 {
        let t = tags[0];
        assert(clean_tag(t));
        lemma_split_without_sep(t, ',');
        assert(seq![t] =~= Seq::<Seq<char>>::empty().push(t));
        lemma_kept_fields_push(Seq::<Seq<char>>::empty(), t);
        assert(joined(tags, ", "@) == t);
        assert(kept_fields(Seq::<Seq<char>>::empty()) =~= Seq::<Seq<char>>::empty());
        assert(Seq::<Seq<char>>::empty().push(t) =~= tags);
        assert(split_on(t, ',') == Seq::<Seq<char>>::empty().push(t));
        assert(trimmed(t) == t);
        assert(kept_fields(Seq::<Seq<char>>::empty().push(t)) == Seq::<Seq<char>>::empty().push(t));
        assert(parsed_tags(joined(tags, ", "@)) =~= tags);
    } else {
        let init = tags.drop_last();
        let last = tags.last();
        assert(clean_tag(tags[tags.len() - 1]));
        assert forall|i: int| 0 <= i < init.len() implies clean_tag(#[trigger] init[i]) by {
            assert(clean_tag(tags[i]));
        }
        lemma_parse_joined_tags(init);
        let s = joined(init, ", "@);
        let b = seq![' '] + last;
        assert(!b.contains(',')) by {
            if b.contains(',') {
                let k = choose|k: int| 0 <= k < b.len() && b[k] == ',';
                assert(k > 0);
                assert(last[k - 1] == ',');
            }
        }
        assert(joined(tags, ", "@) =~= s + seq![','] + b);
        lemma_split_after_sep(s, ',', b);
        lemma_trim_leading_space(last);
        lemma_kept_fields_push(split_on(s, ','), b);
        assert(init.push(last) =~= tags);
    }
}


proof fn lemma_trim_start_shape(s: Seq<char>)
    ensures
        trim_start(s).len() <= s.len(),
        trim_start(s) == s.subrange(s.len() - trim_start(s).len(), s.len() as int),
        trim_start(s).len() > 0 ==> !is_white_space(trim_start(s)[0]),
        forall|i: int| 0 <= i < s.len() - trim_start(s).len() ==> is_white_space(#[trigger] s[i]),
    decreases s.len(),
{
    if s.len() > 0 && is_white_space(s[0]) {
        lemma_trim_start_shape(s.drop_first());
        let t = trim_start(s.drop_first());
        assert forall|i: int| 0 <= i < s.len() - t.len() implies is_white_space(#[trigger] s[i]) by {
            if i > 0 {
                assert(s[i] == s.drop_first()[i - 1]);
            }
        }
        assert(s.drop_first().subrange(s.drop_first().len() - t.len(), s.drop_first().len() as int)
            =~= s.subrange(s.len() - t.len(), s.len() as int));
    } else {
        assert(s.subrange(0, s.len() as int) =~= s);
    }
}

proof fn lemma_trim_end_shape(s: Seq<char>)
    ensures
        trim_end(s).len() <= s.len(),
        trim_end(s) == s.take(trim_end(s).len() as int),
        trim_end(s).len() > 0 ==> !is_white_space(trim_end(s).last()),
        forall|i: int| trim_end(s).len() <= i < s.len() ==> is_white_space(#[trigger] s[i]),
    decreases s.len(),
{
    if s.len() > 0 && is_white_space(s.last()) {
        lemma_trim_end_shape(s.drop_last());
        let t = trim_end(s.drop_last());
        assert forall|i: int| t.len() <= i < s.len() implies is_white_space(#[trigger] s[i]) by {
            if i < s.len() - 1 {
                assert(s[i] == s.drop_last()[i]);
            }
        }
        assert(s.drop_last().take(t.len() as int) =~= s.take(t.len() as int));
    } else {
        assert(s.take(s.len() as int) =~= s);
    }
}

/// The trimmed form of a string is the run of its characters left after the
/// white space at both ends is taken away: what goes before and after it is
/// white space, and it neither starts nor ends with white space.
pub proof fn lemma_trimmed_shape(s: Seq<char>)
    ensures
        exists|a: int|
            0 <= a && a + trimmed(s).len() <= s.len() && #[trigger] s.subrange(a, a + trimmed(s).len()) == trimmed(s)
                && (forall|i: int| 0 <= i < a ==> is_white_space(#[trigger] s[i])) && (forall|i: int|
                a + trimmed(s).len() <= i < s.len() ==> is_white_space(#[trigger] s[i])),
        trimmed(s).len() > 0 ==> !is_white_space(trimmed(s)[0]) && !is_white_space(trimmed(s).last()),
        trimmed(trimmed(s)) == trimmed(s),
{
    let u = trim_start(s);
    let t = trimmed(s);
    lemma_trim_start_shape(s);
    lemma_trim_end_shape(u);
    let a = s.len() - u.len();
    assert(s.subrange(a, a + t.len()) =~= t);
    assert forall|i: int| a + t.len() <= i < s.len() implies is_white_space(#[trigger] s[i]) by {
        assert(s[i] == u[i - a]);
    }
    if t.len() > 0 {
        assert(t[0] == u[0]);
        assert(trim_start(t) == t);
        assert(trim_end(t) == t);
    } else {
        assert(trim_start(t) == t);
    }
}

proof fn lemma_split_fields_avoid_sep(s: Seq<char>, sep: char)
    ensures
        forall|i: int| 0 <= i < split_on(s, sep).len() ==> !(#[trigger] split_on(s, sep)[i]).contains(sep),
    decreases s.len(),
{
    if s.len() > 0 {
        lemma_split_fields_avoid_sep(s.drop_last(), sep);
        lemma_split_on_nonempty(s.drop_last(), sep);
        let f = split_on(s.drop_last(), sep);
        if s.last() != sep {
            let g = f.last().push(s.last());
            assert(!f[f.len() - 1].contains(sep));
            assert(!g.contains(sep)) by {
                if g.contains(sep) {
                    let k = choose|k: int| 0 <= k < g.len() && g[k] == sep;
                    if k < f.last().len() {
                        assert(f.last()[k] == sep);
                    }
                }
            }
        } else {
            assert(!Seq::<char>::empty().contains(sep));
        }
    }
}

proof fn lemma_kept_fields_clean(fields: Seq<Seq<char>>)
    requires
        forall|i: int| 0 <= i < fields.len() ==> !(#[trigger] fields[i]).contains(','),
    ensures
        forall|i: int| 0 <= i < kept_fields(fields).len() ==> clean_tag(#[trigger] kept_fields(fields)[i]),
    decreases fields.len(),
{
    if fields.len() > 0 {
        let p = fields.drop_last();
        assert forall|i: int| 0 <= i < p.len() implies !(#[trigger] p[i]).contains(',') by {
            assert(p[i] == fields[i]);
        }
        lemma_kept_fields_clean(p);
        let f = fields.last();
        assert(!fields[fields.len() - 1].contains(','));
        let t = trimmed(f);
        lemma_trimmed_shape(f);
        if t.len() > 0 {
            let a = choose|a: int| 0 <= a && a + t.len() <= f.len() && #[trigger] f.subrange(a, a + t.len()) == t;
            assert(!t.contains(',')) by {
                if t.contains(',') {
                    let k = choose|k: int| 0 <= k < t.len() && t[k] == ',';
                    assert(f[a + k] == ',');
                }
            }
            assert(clean_tag(t));
        }
        assert(p.push(f) =~= fields);
        lemma_kept_fields_push(p, f);
        let k = kept_fields(fields);
        let kp = kept_fields(p);
        assert forall|i: int| 0 <= i < k.len() implies clean_tag(#[trigger] k[i]) by {
            if i < kp.len() {
                assert(k[i] == kp[i]);
            }
        }
    }
}

/// Every tag read from a tag line is clean: not empty, without surrounding
/// white space, without a comma.
pub proof fn lemma_parsed_tags_clean(line: Seq<char>)
    ensures
        forall|i: int| 0 <= i < parsed_tags(line).len() ==> clean_tag(#[trigger] parsed_tags(line)[i]),
{
    lemma_split_fields_avoid_sep(line, ',');
    lemma_kept_fields_clean(split_on(line, ','));
}

/// Joining the fields of a string, split on a separator, with that separator
/// between neighbours gives back the string.
pub proof fn lemma_split_joins_back(s: Seq<char>, sep: char)
    ensures
        joined(split_on(s, sep), seq![sep]) == s,
    decreases s.len(),
{
    if s.len() == 0 {
        assert(joined(seq![Seq::<char>::empty()], seq![sep]) == Seq::<char>::empty());
    } else {
        let p = s.drop_last();
        lemma_split_joins_back(p, sep);
        lemma_split_on_nonempty(p, sep);
        let f = split_on(p, sep);
        if s.last() == sep {
            let g = f.push(Seq::<char>::empty());
            assert(g.drop_last() =~= f);
            assert(joined(g, seq![sep]) =~= s);
        } else {
            let g = f.update(f.len() - 1, f.last().push(s.last()));
            assert(g.last() == f.last().push(s.last()));
            if f.len() == 1 {
                assert(joined(g, seq![sep]) =~= s);
            } else {
                assert(g.drop_last() =~= f.drop_last());
                assert(joined(f, seq![sep]) == joined(f.drop_last(), seq![sep]) + seq![sep] + f.last());
                assert(joined(g, seq![sep]) == joined(f.drop_last(), seq![sep]) + seq![sep] + f.last().push(
                    s.last(),
                ));
                assert(s =~= p.push(s.last()));
                assert(joined(g, seq![sep]) =~= s);
            }
        }
    }
}

} // verus!
