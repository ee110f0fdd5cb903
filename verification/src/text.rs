use vstd::prelude::*;
use vstd::string::StrSliceExecFns;
use vstd::string::StringExecFns;

verus! {

/// Whether `c` is one of the characters that Unicode marks as white space.
pub open spec fn is_whitespace(c: char) -> bool {
    let u = c as u32;
    ||| 0x09 <= u <= 0x0D
    ||| u == 0x20
    ||| u == 0x85
    ||| u == 0xA0
    ||| u == 0x1680
    ||| 0x2000 <= u <= 0x200A
    ||| u == 0x2028
    ||| u == 0x2029
    ||| u == 0x202F
    ||| u == 0x205F
    ||| u == 0x3000
}

/// Tells whether `c` is white space.
pub fn char_is_whitespace(c: char) -> (b: bool)
    ensures
        b == is_whitespace(c),
{
    let u: u32 = c as u32;
    (0x09 <= u && u <= 0x0D) || u == 0x20 || u == 0x85 || u == 0xA0 || u == 0x1680 || (0x2000 <= u
        && u <= 0x200A) || u == 0x2028 || u == 0x2029 || u == 0x202F || u == 0x205F || u == 0x3000
}

/// The characters of `s`, one element each.
pub fn chars_of(s: &str) -> (v: Vec<char>)
    ensures
        v@ == s@,
{
    let mut v: Vec<char> = Vec::new();
    for c in it: s.chars()
        invariant
            v@ == it.seq().take(it.index() as int),
    {
        v.push(c);
    }
    v
}

/// Whether `needle` stands in `haystack` at index `i`.
pub open spec fn occurs_at(haystack: Seq<char>, needle: Seq<char>, i: int) -> bool {
    &&& 0 <= i
    &&& i + needle.len() <= haystack.len()
    &&& haystack.subrange(i, i + needle.len()) == needle
}

/// Whether `i` is the least index at which `needle` stands in `haystack`.
pub open spec fn is_first_occurrence(haystack: Seq<char>, needle: Seq<char>, i: int) -> bool {
    &&& occurs_at(haystack, needle, i)
    &&& forall|j: int| 0 <= j < i ==> !occurs_at(haystack, needle, j)
}

/// Whether `needle` stands anywhere in `haystack`.
pub open spec fn contains(haystack: Seq<char>, needle: Seq<char>) -> bool {
    exists|i: int| occurs_at(haystack, needle, i)
}

/// The least index at which `needle` stands in `haystack`, if it stands there at all.
pub open spec fn first_occurrence(haystack: Seq<char>, needle: Seq<char>) -> Option<int> {
    if contains(haystack, needle) {
        Some(choose|i: int| is_first_occurrence(haystack, needle, i))
    } else {
        None
    }
}

/// An index with the needle at it and none before it is the first occurrence.
pub proof fn lemma_first_occurrence_is(haystack: Seq<char>, needle: Seq<char>, i: int)
    requires
        is_first_occurrence(haystack, needle, i),
    ensures
        first_occurrence(haystack, needle) == Some(i),
{
    let k = choose|k: int| is_first_occurrence(haystack, needle, k);
    assert(is_first_occurrence(haystack, needle, k));
    if k < i {
        assert(!occurs_at(haystack, needle, k));
    } else if i < k {
        assert(!occurs_at(haystack, needle, i));
    }
}

/// Where the needle stands nowhere, there is no first occurrence.
pub proof fn lemma_first_occurrence_none(haystack: Seq<char>, needle: Seq<char>)
    requires
        forall|j: int| 0 <= j && j + needle.len() <= haystack.len() ==> !occurs_at(haystack, needle, j),
    ensures
        first_occurrence(haystack, needle) is None,
{
}

/// Whether `needle` stands in `haystack` at index `i`.
fn matches_at(haystack: &Vec<char>, needle: &Vec<char>, i: usize) -> (b: bool)
    requires
        i + needle.len() <= haystack.len(),
    ensures
        b == occurs_at(haystack@, needle@, i as int),
{
    let mut t: usize = 0;
    while t < needle.len()
        invariant
            t <= needle.len(),
            i + needle.len() <= haystack.len(),
            forall|u: int| 0 <= u < t ==> haystack@[i + u] == needle@[u],
        decreases needle.len() - t,
    {
        if haystack[i + t] != needle[t] {
            assert(haystack@.subrange(i as int, i + needle.len())[t as int] != needle@[t as int]);
            return false;
        }
        t += 1;
    }
    assert(haystack@.subrange(i as int, i + needle.len()) =~= needle@);
    true
}

/// Finds the first place where `needle` stands in `haystack`.
pub fn find_chars(haystack: &Vec<char>, needle: &Vec<char>) -> (r: Option<usize>)
    ensures
        match r {
            Some(i) => first_occurrence(haystack@, needle@) == Some(i as int)
                && is_first_occurrence(haystack@, needle@, i as int),
            None => first_occurrence(haystack@, needle@) is None,
        },
{
    if needle.len() > haystack.len() {
        proof {
            lemma_first_occurrence_none(haystack@, needle@);
        }
        return None;
    }
    let last: usize = haystack.len() - needle.len();
    let mut i: usize = 0;
    loop
        invariant
            i <= last,
            last == haystack.len() - needle.len(),
            forall|j: int| 0 <= j < i ==> !occurs_at(haystack@, needle@, j),
        decreases last - i,
    {
        if matches_at(haystack, needle, i) {
            proof {
                lemma_first_occurrence_is(haystack@, needle@, i as int);
            }
            return Some(i);
        }
        if i == last {
            proof {
                lemma_first_occurrence_none(haystack@, needle@);
            }
            return None;
        }
        i += 1;
    }
}

/// Whether `s` holds nothing but white space.
pub open spec fn is_blank(s: Seq<char>) -> bool {
    forall|i: int| 0 <= i < s.len() ==> is_whitespace(#[trigger] s[i])
}

/// `s` without the white space at its start.
pub open spec fn trim_start(s: Seq<char>) -> Seq<char>
    decreases s.len(),
{
    if s.len() > 0 && is_whitespace(s.first()) {
        trim_start(s.drop_first())
    } else {
        s
    }
}

/// `s` without the white space at its end.
pub open spec fn trim_end(s: Seq<char>) -> Seq<char>
    decreases s.len(),
{
    if s.len() > 0 && is_whitespace(s.last()) {
        trim_end(s.drop_last())
    } else {
        s
    }
}

/// `s` without the white space at its start and at its end.
pub open spec fn trimmed(s: Seq<char>) -> Seq<char> {
    trim_end(trim_start(s))
}

/// Trimming at the start skips the leading run of white space.
pub proof fn lemma_trim_start_skips(s: Seq<char>, a: int)
    requires
        0 <= a <= s.len(),
        forall|j: int| 0 <= j < a ==> is_whitespace(#[trigger] s[j]),
        a == s.len() || !is_whitespace(s[a]),
    ensures
        trim_start(s) == s.skip(a),
    decreases a,
{
    if a == 0 {
        assert(s.skip(0) =~= s);
    } else {
        assert(is_whitespace(s[0]));
        let rest = s.drop_first();
        assert forall|j: int| 0 <= j < a - 1 implies is_whitespace(#[trigger] rest[j]) by {
            assert(rest[j] == s[j + 1]);
        }
        lemma_trim_start_skips(rest, a - 1);
        assert(rest.skip(a - 1) =~= s.skip(a));
    }
}

/// Trimming at the end keeps all up to the trailing run of white space.
pub proof fn lemma_trim_end_takes(s: Seq<char>, b: int)
    requires
        0 <= b <= s.len(),
        forall|j: int| b <= j < s.len() ==> is_whitespace(#[trigger] s[j]),
        b == 0 || !is_whitespace(s[b - 1]),
    ensures
        trim_end(s) == s.take(b),
    decreases s.len() - b,
{
    if b == s.len() {
        assert(s.take(b) =~= s);
    } else {
        assert(is_whitespace(s[s.len() - 1]));
        let rest = s.drop_last();
        lemma_trim_end_takes(rest, b);
        assert(rest.take(b) =~= s.take(b));
    }
}

/// A text is blank exactly when trimming leaves nothing of it.
pub proof fn lemma_blank_iff_trimmed_empty(s: Seq<char>)
    ensures
        is_blank(s) <==> trimmed(s).len() == 0,
    decreases s.len(),
{
    if s.len() > 0 && is_whitespace(s.first()) {
        let rest = s.drop_first();
        lemma_blank_iff_trimmed_empty(rest);
        if is_blank(rest) {
            assert forall|i: int| 0 <= i < s.len() implies is_whitespace(#[trigger] s[i]) by {
                if i > 0 {
                    assert(s[i] == rest[i - 1]);
                }
            }
        }
        if is_blank(s) {
            assert forall|i: int| 0 <= i < rest.len() implies is_whitespace(#[trigger] rest[i]) by {
                assert(rest[i] == s[i + 1]);
            }
        }
    } else if s.len() > 0 {
        assert(!is_whitespace(s[0]));
        lemma_trim_end_keeps_first(s);
    }
}

/// Trimming at the end leaves a text that starts with a visible character non-empty.
proof fn lemma_trim_end_keeps_first(s: Seq<char>)
    requires
        s.len() > 0,
        !is_whitespace(s[0]),
    ensures
        trim_end(s).len() > 0,
    decreases s.len(),
{
    if is_whitespace(s.last()) {
        assert(s.len() > 1);
        lemma_trim_end_keeps_first(s.drop_last());
    }
}

/// The bounds of what trimming leaves of the characters from `lo` up to `hi`.
pub fn trim_bounds(text: &Vec<char>, lo: usize, hi: usize) -> (r: (usize, usize))
    requires
        lo <= hi <= text.len(),
    ensures
        lo <= r.0 <= r.1 <= hi,
        text@.subrange(r.0 as int, r.1 as int) == trimmed(text@.subrange(lo as int, hi as int)),
{
    let ghost window = text@.subrange(lo as int, hi as int);
    let mut a: usize = lo;
    while a < hi && char_is_whitespace(text[a])
        invariant
            lo <= a <= hi <= text.len(),
            forall|j: int| lo <= j < a ==> is_whitespace(#[trigger] text@[j]),
        decreases hi - a,
    {
        a += 1;
    }
    let mut b: usize = hi;
    while b > a && char_is_whitespace(text[b - 1])
        invariant
            a <= b <= hi <= text.len(),
            forall|j: int| b <= j < hi ==> is_whitespace(#[trigger] text@[j]),
        decreases b,
    {
        b -= 1;
    }
    proof {
        assert forall|j: int| 0 <= j < a - lo implies is_whitespace(#[trigger] window[j]) by {
            assert(window[j] == text@[lo + j]);
        }
        lemma_trim_start_skips(window, a - lo);
        let rest = window.skip(a - lo);
        assert(rest =~= text@.subrange(a as int, hi as int));
        assert forall|j: int| b - a <= j < rest.len() implies is_whitespace(#[trigger] rest[j]) by {
            assert(rest[j] == text@[a + j]);
        }
        lemma_trim_end_takes(rest, b - a);
        assert(rest.take(b - a) =~= text@.subrange(a as int, b as int));
    }
    (a, b)
}

/// How many characters stand before the first line feed of `s`, or in all of `s` where it
/// has none.
pub open spec fn line_len(s: Seq<char>) -> nat
    decreases s.len(),
{
    if s.len() == 0 || s.first() == '\n' {
        0
    } else {
        1 + line_len(s.drop_first())
    }
}

/// `line` without the carriage return at its end, if it has one.
pub open spec fn without_carriage_return(line: Seq<char>) -> Seq<char> {
    if line.len() > 0 && line.last() == '\r' {
        line.drop_last()
    } else {
        line
    }
}

/// The lines of `s`. A line ends at a line feed, or at a carriage return with a line feed
/// behind it, and holds neither of them; what stands behind the last line feed is a line
/// only if it is not empty, and then keeps a carriage return at its end.
pub open spec fn lines(s: Seq<char>) -> Seq<Seq<char>>
    decreases s.len(),
{
    if s.len() == 0 {
        Seq::empty()
    } else {
        let n = line_len(s) as int;
        if n >= s.len() {
            seq![s]
        } else {
            seq![without_carriage_return(s.take(n))] + lines(s.skip(n + 1))
        }
    }
}

/// The lines `ls` with one line feed between each two of them.
pub open spec fn join_lines(ls: Seq<Seq<char>>) -> Seq<char>
    decreases ls.len(),
{
    if ls.len() == 0 {
        Seq::empty()
    } else if ls.len() == 1 {
        ls[0]
    } else {
        join_lines(ls.drop_last()) + seq!['\n'] + ls.last()
    }
}

/// The first `n` lines of `s`, or all of them where it has fewer, joined by line feeds.
pub open spec fn first_lines(s: Seq<char>, n: nat) -> Seq<char> {
    let ls = lines(s);
    join_lines(ls.take(if n <= ls.len() { n as int } else { ls.len() as int }))
}

/// The first line ends where the first line feed stands.
pub proof fn lemma_line_len_is(s: Seq<char>, k: int)
    requires
        0 <= k <= s.len(),
        forall|j: int| 0 <= j < k ==> #[trigger] s[j] != '\n',
        k == s.len() || s[k] == '\n',
    ensures
        line_len(s) == k,
    decreases k,
{
    if k > 0 {
        assert(s[0] != '\n');
        let rest = s.drop_first();
        assert forall|j: int| 0 <= j < k - 1 implies #[trigger] rest[j] != '\n' by {
            assert(rest[j] == s[j + 1]);
        }
        lemma_line_len_is(rest, k - 1);
    }
}

/// The first `n` lines of `text`, or all of them where it has fewer, joined by line feeds.
pub fn take_lines(text: &str, n: usize) -> (r: String)
    ensures
        r@ == first_lines(text@, n as nat),
{
    let chars = chars_of(text);
    let len = chars.len();
    let mut out = String::new();
    let mut pos: usize = 0;
    let mut count: usize = 0;
    let ghost mut emitted: Seq<Seq<char>> = Seq::empty();
    proof {
        assert(text@.skip(0) =~= text@);
        assert(emitted + lines(text@) =~= lines(text@));
    }
    while count < n && pos < len
        invariant
            chars@ == text@,
            len == chars.len(),
            pos <= len,
            count <= n,
            emitted.len() == count,
            out@ == join_lines(emitted),
            lines(text@) == emitted + lines(text@.skip(pos as int)),
        decreases len - pos,
    {
        let mut end: usize = pos;
        while end < len && chars[end] != '\n'
            invariant
                pos <= end <= len,
                len == chars.len(),
                forall|j: int| pos <= j < end ==> #[trigger] chars@[j] != '\n',
            decreases len - end,
        {
            end += 1;
        }
        let mut stop: usize = end;
        if end < len && end > pos && chars[end - 1] == '\r' {
            stop = end - 1;
        }
        let line = text.substring_char(pos, stop);
        if count > 0 {
            proof {
                reveal_strlit("\n");
            }
            out.append("\n");
            assert("\n"@ =~= seq!['\n']);
        }
        out.append(line);
        let next: usize = if end < len { end + 1 } else { len };
        proof {
            let rest = text@.skip(pos as int);
            let k = end - pos;
            assert forall|j: int| 0 <= j < k implies #[trigger] rest[j] != '\n' by {
                assert(rest[j] == chars@[pos + j]);
            }
            lemma_line_len_is(rest, k);
            let grown = emitted.push(line@);
            assert(grown.drop_last() =~= emitted);
            if end < len {
                assert(rest.take(k) =~= text@.subrange(pos as int, end as int));
                assert(without_carriage_return(rest.take(k)) =~= line@);
                assert(rest.skip(k + 1) =~= text@.skip(next as int));
                assert(emitted + lines(rest) =~= grown + lines(text@.skip(next as int)));
            } else {
                assert(rest =~= line@);
                assert(lines(text@.skip(next as int)) =~= Seq::<Seq<char>>::empty());
                assert(emitted + lines(rest) =~= grown + lines(text@.skip(next as int)));
            }
            emitted = grown;
        }
        pos = next;
        count += 1;
    }
    proof {
        let all = lines(text@);
        if pos == len {
            assert(lines(text@.skip(pos as int)) =~= Seq::<Seq<char>>::empty());
            assert(all =~= emitted);
            assert(all.take(all.len() as int) =~= all);
        } else {
            assert(all.take(n as int) =~= emitted);
        }
    }
    out
}

/// The lowercase form of a text, as the standard library computes it from the Unicode
/// tables it was built with.
pub uninterp spec fn lowercase_of(s: Seq<char>) -> Seq<char>;

/// `str::to_lowercase` of the standard library. Nothing is claimed of the result but that it
/// is a function of the characters handed in, under the name `lowercase_of`.
pub assume_specification[ str::to_lowercase ](s: &str) -> (r: String)
    ensures
        r@ == lowercase_of(s@),
;

/// `s` without the white space at its start and at its end.
pub fn trim(s: &str) -> (r: &str)
    ensures
        r@ == trimmed(s@),
{
    let chars = chars_of(s);
    let (a, b) = trim_bounds(&chars, 0, chars.len());
    proof {
        assert(chars@.subrange(0, chars.len() as int) =~= s@);
    }
    s.substring_char(a, b)
}

/// Tells whether `s` holds nothing but white space.
pub fn blank(s: &str) -> (b: bool)
    ensures
        b == is_blank(s@),
{
    let rest = trim(s);
    proof {
        lemma_blank_iff_trimmed_empty(s@);
    }
    rest.unicode_len() == 0
}

/// Finds the first place where `needle` stands in `haystack`, counted in characters.
pub fn find(haystack: &str, needle: &str) -> (r: Option<usize>)
    ensures
        match r {
            Some(i) => first_occurrence(haystack@, needle@) == Some(i as int)
                && is_first_occurrence(haystack@, needle@, i as int),
            None => first_occurrence(haystack@, needle@) is None,
        },
{
    let h = chars_of(haystack);
    let n = chars_of(needle);
    find_chars(&h, &n)
}

/// Tells whether two texts hold the same characters.
pub fn same_text(a: &str, b: &str) -> (r: bool)
    ensures
        r == (a@ == b@),
{
    let x = chars_of(a);
    let y = chars_of(b);
    if x.len() != y.len() {
        return false;
    }
    let mut i: usize = 0;
    while i < x.len()
        invariant
            i <= x.len(),
            x.len() == y.len(),
            x@ == a@,
            y@ == b@,
            forall|j: int| 0 <= j < i ==> x@[j] == y@[j],
        decreases x.len() - i,
    {
        if x[i] != y[i] {
            return false;
        }
        i += 1;
    }
    assert(x@ =~= y@);
    true
}

/// `s` with `to` in place of each `from`, the occurrences taken from the left and not
/// overlapping. An empty `from` stands nowhere: `s` is left as it is.
pub open spec fn replaced(s: Seq<char>, from: Seq<char>, to: Seq<char>) -> Seq<char>
    decreases s.len(),
{
    match first_occurrence(s, from) {
        Some(i) => if from.len() > 0 && 0 <= i && i + from.len() <= s.len() {
            s.take(i) + to + replaced(s.skip(i + from.len()), from, to)
        } else {
            s
        },
        None => s,
    }
}

/// Puts `to` in place of each `from` in `s`, the occurrences taken from the left and not
/// overlapping.
pub fn replace_each(s: &str, from: &str, to: &str) -> (r: String)
    ensures
        r@ == replaced(s@, from@, to@),
{
    let needle = chars_of(from);
    if needle.len() == 0 {
        return String::from_str(s);
    }
    let mut out = String::new();
    let mut rest: &str = s;
    proof {
        assert(out@ + replaced(rest@, from@, to@) =~= replaced(s@, from@, to@));
    }
    loop
        invariant
            needle@ == from@,
            needle.len() > 0,
            replaced(s@, from@, to@) == out@ + replaced(rest@, from@, to@),
        decreases rest@.len(),
    {
        let chars = chars_of(rest);
        match find_chars(&chars, &needle) {
            Some(i) => {
                let ghost before = out@;
                let ghost old_rest = rest@;
                assert(occurs_at(chars@, needle@, i as int));
                assert(i + needle.len() <= chars.len());
                let next: usize = i + needle.len();
                out.append(rest.substring_char(0, i));
                out.append(to);
                rest = rest.substring_char(next, chars.len());
                proof {
                    assert(old_rest.take(i as int) =~= old_rest.subrange(0, i as int));
                    assert(rest@ =~= old_rest.skip(i + needle.len()));
                    assert(out@ + replaced(rest@, from@, to@) =~= before + (old_rest.take(i as int)
                        + to@ + replaced(rest@, from@, to@)));
                }
            },
            None => {
                out.append(rest);
                return out;
            },
        }
    }
}

} // verus!
