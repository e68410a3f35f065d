//! Character-sequence utilities shared by the subject parser and the SAN
//! extractor: splitting on commas, trimming whitespace, prefix tests and
//! joining, each with a mathematical model over `Seq<char>`.

use vstd::prelude::*;

verus! {

/// The characters removed from the edges of a segment when it is trimmed:
/// the Unicode `White_Space` set, as `str::trim` removes it.
pub open spec fn is_space(c: char) -> bool {
    c == ' ' || c == '\t' || c == '\n' || c == '\r' || c == '\u{0B}' || c == '\u{0C}' || c
        == '\u{85}' || c == '\u{A0}' || c == '\u{1680}' || ('\u{2000}' <= c && c <= '\u{200A}')
        || c == '\u{2028}' || c == '\u{2029}' || c == '\u{202F}' || c == '\u{205F}' || c
        == '\u{3000}'
}

/// The pieces of `s` between commas, in input order.  Mirrors splitting on a
/// single separator character: the empty sequence yields one empty piece, and
/// adjacent commas yield empty pieces.
pub open spec fn split_comma(s: Seq<char>) -> Seq<Seq<char>>
    decreases s.len(),
{
    if s.len() == 0 {
        seq![Seq::<char>::empty()]
    } else if s[0] == ',' {
        seq![Seq::<char>::empty()] + split_comma(s.drop_first())
    } else {
        let rest = split_comma(s.drop_first());
        seq![seq![s[0]] + rest[0]] + rest.drop_first()
    }
}

/// `s` without its leading whitespace.
pub open spec fn trim_start(s: Seq<char>) -> Seq<char>
    decreases s.len(),
{
    if s.len() > 0 && is_space(s[0]) {
        trim_start(s.drop_first())
    } else {
        s
    }
}

/// `s` without its trailing whitespace.
pub open spec fn trim_end(s: Seq<char>) -> Seq<char>
    decreases s.len(),
{
    if s.len() > 0 && is_space(s.last()) {
        trim_end(s.drop_last())
    } else {
        s
    }
}

/// `s` without leading and trailing whitespace.
pub open spec fn trim(s: Seq<char>) -> Seq<char> {
    trim_end(trim_start(s))
}

/// The comma-separated pieces of `s`, each trimmed.
pub open spec fn trimmed_segments(s: Seq<char>) -> Seq<Seq<char>> {
    split_comma(s).map_values(|seg: Seq<char>| trim(seg))
}

/// The items of `items` concatenated with `sep` between consecutive items.
pub open spec fn join(items: Seq<Seq<char>>, sep: Seq<char>) -> Seq<char>
    decreases items.len(),
{
    if items.len() == 0 {
        Seq::<char>::empty()
    } else if items.len() == 1 {
        items[0]
    } else {
        items[0] + sep + join(items.drop_first(), sep)
    }
}

proof fn lemma_split_comma_nonempty(s: Seq<char>)
    ensures
        split_comma(s).len() >= 1,
    decreases s.len(),
{
    if s.len() > 0 {
        lemma_split_comma_nonempty(s.drop_first());
    }
}

/// A sequence without commas splits into just itself.
proof fn lemma_split_comma_none(s: Seq<char>)
    requires
        forall|k: int| 0 <= k < s.len() ==> s[k] != ',',
    ensures
        split_comma(s) == seq![s],
    decreases s.len(),
{
    if s.len() == 0 {
        assert(split_comma(s) =~~= seq![s]);
    } else {
        lemma_split_comma_none(s.drop_first());
        assert(seq![s[0]] + s.drop_first() =~= s);
        assert(split_comma(s) =~~= seq![s]);
    }
}

/// Splitting at the first comma: the piece before it, then the split of the
/// remainder after it.
proof fn lemma_split_comma_first(s: Seq<char>, p: int)
    requires
        0 <= p < s.len(),
        s[p] == ',',
        forall|k: int| 0 <= k < p ==> s[k] != ',',
    ensures
        split_comma(s) == seq![s.subrange(0, p)] + split_comma(s.subrange(p + 1, s.len() as int)),
    decreases p,
{
    if p == 0 {
        assert(s.drop_first() =~= s.subrange(1, s.len() as int));
        assert(s.subrange(0, 0) =~= Seq::<char>::empty());
        assert(split_comma(s) =~~= seq![s.subrange(0, 0)] + split_comma(
            s.subrange(1, s.len() as int),
        ));
    } else {
        let t = s.drop_first();
        assert(t[p - 1] == ',');
        lemma_split_comma_first(t, p - 1);
        lemma_split_comma_nonempty(t.subrange(p, t.len() as int));
        let rest = split_comma(t);
        assert(rest[0] == t.subrange(0, p - 1));
        assert(seq![s[0]] + t.subrange(0, p - 1) =~= s.subrange(0, p));
        assert(t.subrange(p, t.len() as int) =~= s.subrange(p + 1, s.len() as int));
        assert(rest.drop_first() =~~= split_comma(s.subrange(p + 1, s.len() as int)));
        assert(split_comma(s) =~~= seq![s.subrange(0, p)] + split_comma(
            s.subrange(p + 1, s.len() as int),
        ));
    }
}

/// Trimming distributes over concatenation of segment lists.
proof fn lemma_trimmed_append(x: Seq<Seq<char>>, y: Seq<Seq<char>>)
    ensures
        (x + y).map_values(|seg: Seq<char>| trim(seg)) == x.map_values(
            |seg: Seq<char>| trim(seg),
        ) + y.map_values(|seg: Seq<char>| trim(seg)),
{
    assert((x + y).map_values(|seg: Seq<char>| trim(seg)) =~~= x.map_values(
        |seg: Seq<char>| trim(seg),
    ) + y.map_values(|seg: Seq<char>| trim(seg)));
}

/// If everything before `a` is whitespace and `s[a]` is not (or `a` is the
/// end), then trimming the start keeps exactly the suffix from `a`.
proof fn lemma_trim_start_at(s: Seq<char>, a: int)
    requires
        0 <= a <= s.len(),
        forall|k: int| 0 <= k < a ==> is_space(s[k]),
        a < s.len() ==> !is_space(s[a]),
    ensures
        trim_start(s) == s.subrange(a, s.len() as int),
    decreases a,
{
    if a == 0 {
        assert(s.subrange(0, s.len() as int) =~= s);
    } else {
        let t = s.drop_first();
        lemma_trim_start_at(t, a - 1);
        assert(t.subrange(a - 1, t.len() as int) =~= s.subrange(a, s.len() as int));
    }
}

/// If everything from `b` on is whitespace and `s[b - 1]` is not (or `b` is
/// zero), then trimming the end keeps exactly the prefix up to `b`.
proof fn lemma_trim_end_at(s: Seq<char>, b: int)
    requires
        0 <= b <= s.len(),
        forall|k: int| b <= k < s.len() ==> is_space(s[k]),
        b > 0 ==> !is_space(s[b - 1]),
    ensures
        trim_end(s) == s.subrange(0, b),
    decreases s.len(),
{
    if b == s.len() {
        assert(s.subrange(0, s.len() as int) =~= s);
    } else {
        assert(is_space(s.last()));
        let t = s.drop_last();
        lemma_trim_end_at(t, b);
        assert(t.subrange(0, b) =~= s.subrange(0, b));
    }
}

/// Trimming `s` keeps exactly `s[a .. b]` when everything outside that range
/// is whitespace and the range's edges are not.
proof fn lemma_trim_range(s: Seq<char>, a: int, b: int)
    requires
        0 <= a <= b <= s.len(),
        forall|k: int| 0 <= k < a ==> is_space(s[k]),
        forall|k: int| b <= k < s.len() ==> is_space(s[k]),
        a < b ==> !is_space(s[a]) && !is_space(s[b - 1]),
    ensures
        trim(s) == s.subrange(a, b),
{
    if a == b {
        lemma_trim_start_at(s, s.len() as int);
        assert(trim_start(s) =~= Seq::<char>::empty());
        assert(s.subrange(a, b) =~= Seq::<char>::empty());
    } else {
        lemma_trim_start_at(s, a);
        let t = s.subrange(a, s.len() as int);
        lemma_trim_end_at(t, b - a);
        assert(t.subrange(0, b - a) =~= s.subrange(a, b));
    }
}

/// The result of trimming never starts or ends with whitespace.
pub proof fn lemma_trim_no_edge_space(s: Seq<char>)
    ensures
        trim(s).len() > 0 ==> !is_space(trim(s).first()) && !is_space(trim(s).last()),
{
    lemma_trim_start_no_leading_space(s);
    lemma_trim_end_props(trim_start(s));
    let t = trim_start(s);
    if trim(s).len() > 0 {
        assert(trim(s).first() == t.first());
    }
}

proof fn lemma_trim_start_no_leading_space(s: Seq<char>)
    ensures
        trim_start(s).len() > 0 ==> !is_space(trim_start(s).first()),
    decreases s.len(),
{
    if s.len() > 0 && is_space(s[0]) {
        lemma_trim_start_no_leading_space(s.drop_first());
    }
}

/// Trimming the end keeps a prefix of the input and leaves no trailing
/// whitespace.
proof fn lemma_trim_end_props(s: Seq<char>)
    ensures
        trim_end(s).len() <= s.len(),
        trim_end(s) == s.subrange(0, trim_end(s).len() as int),
        trim_end(s).len() > 0 ==> !is_space(trim_end(s).last()),
    decreases s.len(),
{
    if s.len() > 0 && is_space(s.last()) {
        let t = s.drop_last();
        lemma_trim_end_props(t);
        assert(t.subrange(0, trim_end(t).len() as int) =~= s.subrange(
            0,
            trim_end(t).len() as int,
        ));
    } else {
        assert(s.subrange(0, s.len() as int) =~= s);
    }
}

/// Joining after appending one more item: the separator sits between the old
/// join and the new item.
proof fn lemma_join_push(items: Seq<Seq<char>>, x: Seq<char>, sep: Seq<char>)
    ensures
        items.len() == 0 ==> join(items.push(x), sep) == x,
        items.len() > 0 ==> join(items.push(x), sep) == join(items, sep) + sep + x,
    decreases items.len(),
{
    let whole = items.push(x);
    if items.len() == 0 {
        assert(whole.len() == 1);
        assert(whole[0] == x);
    } else if items.len() == 1 {
        assert(whole.drop_first() =~~= seq![x]);
        assert(join(whole.drop_first(), sep) == x);
        assert(whole[0] == items[0]);
        assert(join(whole, sep) == items[0] + sep + x);
    } else {
        lemma_join_push(items.drop_first(), x, sep);
        assert(whole.drop_first() =~~= items.drop_first().push(x));
        assert(join(whole, sep) == whole[0] + sep + join(items.drop_first().push(x), sep));
        assert((items[0] + sep + join(items.drop_first(), sep)) + sep + x =~= items[0] + sep + (
        join(items.drop_first(), sep) + sep + x));
    }
}

/// Collects the characters of `s` into a vector.
pub fn chars_of(s: &str) -> (r: Vec<char>)
    ensures
        r@ == s@,
{
    let n = s.unicode_len();
    let mut r: Vec<char> = Vec::new();
    let mut i: usize = 0;
    while i < n
        invariant
            i <= n,
            n == s@.len(),
            r@ == s@.take(i as int),
        decreases n - i,
    {
        let c = s.get_char(i);
        r.push(c);
        i = i + 1;
        assert(r@ =~= s@.take(i as int));
    }
    assert(s@.take(n as int) =~= s@);
    r
}

/// Whether `c` counts as whitespace for trimming.
pub fn is_space_char(c: char) -> (r: bool)
    ensures
        r == is_space(c),
{
    c == ' ' || c == '\t' || c == '\n' || c == '\r' || c == '\u{0B}' || c == '\u{0C}' || c
        == '\u{85}' || c == '\u{A0}' || c == '\u{1680}' || ('\u{2000}' <= c && c <= '\u{200A}')
        || c == '\u{2028}' || c == '\u{2029}' || c == '\u{202F}' || c == '\u{205F}' || c
        == '\u{3000}'
}

/// Whether `s` starts with the characters of `prefix`.
pub fn str_has_prefix(s: &str, prefix: &str) -> (r: bool)
    ensures
        r == prefix@.is_prefix_of(s@),
{
    let n = s.unicode_len();
    let p = prefix.unicode_len();
    if p > n {
        return false;
    }
    let mut i: usize = 0;
    while i < p
        invariant
            i <= p,
            p <= n,
            n == s@.len(),
            p == prefix@.len(),
            forall|k: int| 0 <= k < i ==> s@[k] == prefix@[k],
        decreases p - i,
    {
        if s.get_char(i) != prefix.get_char(i) {
            assert(!prefix@.is_prefix_of(s@));
            return false;
        }
        i = i + 1;
    }
    assert(prefix@ =~= s@.subrange(0, p as int));
    true
}

/// The remainder of `s` after a prefix it is known to carry.
pub fn strip_prefix_owned(s: &str, prefix: &str) -> (r: String)
    requires
        prefix@.is_prefix_of(s@),
    ensures
        r@ == s@.skip(prefix@.len() as int),
{
    let p = prefix.unicode_len();
    let n = s.unicode_len();
    let r = s.substring_char(p, n).to_owned();
    assert(r@ =~= s@.skip(p as int));
    r
}

/// Splits `s` on commas and trims each piece, in input order.
pub fn split_trim(s: &str) -> (r: Vec<String>)
    ensures
        r.deep_view() == trimmed_segments(s@),
{
    let cs = chars_of(s);
    let n = cs.len();
    let mut r: Vec<String> = Vec::new();
    let mut pos: usize = 0;
    proof {
        assert(s@.subrange(0, n as int) =~= s@);
        assert(r.deep_view() =~~= Seq::<Seq<char>>::empty());
    }
    loop
        invariant_except_break
            trimmed_segments(s@) == r.deep_view() + trimmed_segments(
                s@.subrange(pos as int, n as int),
            ),
        invariant
            pos <= n,
            n == s@.len(),
            cs@ == s@,
        ensures
            r.deep_view() == trimmed_segments(s@),
        decreases n - pos,
    {
        let ghost old_r = r.deep_view();
        let ghost rest = s@.subrange(pos as int, n as int);
        let mut p: usize = pos;
        while p < n && cs[p] != ','
            invariant
                pos <= p <= n,
                n == cs@.len(),
                cs@ == s@,
                forall|k: int| pos <= k < p ==> s@[k] != ',',
            decreases n - p,
        {
            p = p + 1;
        }
        let mut a: usize = pos;
        while a < p && is_space_char(cs[a])
            invariant
                pos <= a <= p <= n,
                n == cs@.len(),
                cs@ == s@,
                forall|k: int| pos <= k < a ==> is_space(s@[k]),
            decreases p - a,
        {
            a = a + 1;
        }
        let mut b: usize = p;
        while b > a && is_space_char(cs[b - 1])
            invariant
                a <= b <= p <= n,
                n == cs@.len(),
                cs@ == s@,
                forall|k: int| b <= k < p ==> is_space(s@[k]),
            decreases b,
        {
            b = b - 1;
        }
        let piece = s.substring_char(a, b).to_owned();
        proof {
            let seg = s@.subrange(pos as int, p as int);
            lemma_trim_range(seg, a - pos, b - pos);
            assert(seg.subrange(a - pos, b - pos) =~= s@.subrange(a as int, b as int));
            assert(piece@ == trim(seg));
        }
        r.push(piece);
        proof {
            let seg = s@.subrange(pos as int, p as int);
            assert(r.deep_view() =~~= old_r + seq![trim(seg)]);
        }
        if p == n {
            proof {
                let seg = s@.subrange(pos as int, p as int);
                assert(seg =~= rest);
                lemma_split_comma_none(rest);
                assert(trimmed_segments(rest) =~~= seq![trim(seg)]);
                assert(r.deep_view() =~~= trimmed_segments(s@));
            }
            break ;
        }
        proof {
            let seg = s@.subrange(pos as int, p as int);
            assert(rest[p - pos] == ',');
            lemma_split_comma_first(rest, p - pos);
            assert(rest.subrange(0, p - pos) =~= seg);
            assert(rest.subrange(p - pos + 1, rest.len() as int) =~= s@.subrange(
                p + 1,
                n as int,
            ));
            lemma_trimmed_append(
                seq![seg],
                split_comma(s@.subrange(p + 1, n as int)),
            );
            assert(seq![seg].map_values(|g: Seq<char>| trim(g)) =~~= seq![trim(seg)]);
            assert(trimmed_segments(rest) =~~= seq![trim(seg)] + trimmed_segments(
                s@.subrange(p + 1, n as int),
            ));
            assert(trimmed_segments(s@) =~~= r.deep_view() + trimmed_segments(
                s@.subrange(p + 1, n as int),
            ));
        }
        pos = p + 1;
    }
    r
}

/// Joins `items` with `sep` between consecutive items.
pub fn join_strings(items: &Vec<String>, sep: &str) -> (r: String)
    ensures
        r@ == join(items.deep_view(), sep@),
{
    let mut r = String::new();
    let mut i: usize = 0;
    while i < items.len()
        invariant
            i <= items.len(),
            r@ == join(items.deep_view().take(i as int), sep@),
        decreases items.len() - i,
    {
        if i > 0 {
            r.append(sep);
        }
        r.append(items[i].as_str());
        proof {
            let dv = items.deep_view();
            lemma_join_push(dv.take(i as int), dv[i as int], sep@);
            assert(dv.take(i as int).push(dv[i as int]) =~~= dv.take(i + 1));
        }
        i = i + 1;
    }
    proof {
        assert(items.deep_view().take(items.deep_view().len() as int) =~~= items.deep_view());
    }
    r
}

} // verus!
