//! Small string utilities shared by the renderers.

use vstd::prelude::*;
use vstd::string::StrSliceExecFns;
use vstd::string::StringExecFns;

verus! {

broadcast use vstd::string::group_string_axioms;

/// `String::push`: appends one character.
#[verifier::external_body]
pub(crate) fn push_char(s: &mut String, c: char)
    ensures
        final(s)@ == old(s)@.push(c),
{
    s.push(c)
}

/// How `Debug` renders a string: quoted, with escapes.
pub uninterp spec fn debug_quoted(s: Seq<char>) -> Seq<char>;

/// `<str as Debug>::fmt`: the quoted, escaped rendering of `s`.
#[verifier::external_body]
pub(crate) fn quote_debug(s: &str) -> (r: String)
    ensures
        r@ == debug_quoted(s@),
{
    format!("{s:?}")
}

/// `true` or `false`.
pub open spec fn bool_text(b: bool) -> Seq<char> {
    if b {
        "true"@
    } else {
        "false"@
    }
}

/// The text of a boolean.
pub fn bool_string(b: bool) -> (r: String)
    ensures
        r@ == bool_text(b),
{
    if b {
        owned("true")
    } else {
        owned("false")
    }
}

/// Appends `b` to `s`.
pub fn append(s: &mut String, b: &str)
    ensures
        final(s)@ == old(s)@ + b@,
{
    s.append(b);
}

/// A new string holding `a`.
pub fn owned(a: &str) -> (r: String)
    ensures
        r@ == a@,
{
    a.to_string()
}

/// `a` followed by `b`.
pub fn cat(a: &str, b: &str) -> (r: String)
    ensures
        r@ == a@ + b@,
{
    let mut s = a.to_string();
    s.append(b);
    s
}

/// The characters of `s`.
pub fn chars_of(s: &str) -> (r: Vec<char>)
    ensures
        r@ == s@,
{
    let n: usize = s.unicode_len();
    let mut out: Vec<char> = Vec::new();
    let mut i: usize = 0;
    while i < n
        invariant
            n == s@.len(),
            i <= n,
            out@ == s@.subrange(0, i as int),
        decreases n - i,
    {
        out.push(s.get_char(i));
        i = i + 1;
    }
    assert(out@ == s@);
    out
}

/// A string made of `chars`.
pub fn from_chars(chars: &Vec<char>) -> (r: String)
    ensures
        r@ == chars@,
{
    let mut s = String::new();
    let mut i: usize = 0;
    while i < chars.len()
        invariant
            i <= chars.len(),
            s@ == chars@.subrange(0, i as int),
        decreases chars.len() - i,
    {
        push_char(&mut s, chars[i]);
        i = i + 1;
    }
    assert(s@ == chars@);
    s
}


/// Whether two texts are equal.
pub fn same_text(a: &str, b: &str) -> (r: bool)
    ensures
        r == (a@ == b@),
{
    let n = a.unicode_len();
    if n != b.unicode_len() {
        return false;
    }
    let mut i: usize = 0;
    while i < n
        invariant
            i <= n,
            n == a@.len(),
            n == b@.len(),
            a@.take(i as int) == b@.take(i as int),
        decreases n - i,
    {
        if a.get_char(i) != b.get_char(i) {
            assert(a@[i as int] != b@[i as int]);
            return false;
        }
        assert(a@.take(i as int + 1) =~= a@.take(i as int).push(a@[i as int]));
        assert(b@.take(i as int + 1) =~= b@.take(i as int).push(b@[i as int]));
        i = i + 1;
    }
    assert(a@ =~= a@.take(n as int));
    assert(b@ =~= b@.take(n as int));
    true
}

/// Whether `c` has the Unicode `White_Space` property, as `char::is_whitespace` documents it.
pub open spec fn is_white_space(c: char) -> bool {
    let n = c as u32;
    ||| 0x09 <= n <= 0x0d
    ||| n == 0x20
    ||| n == 0x85
    ||| n == 0xa0
    ||| n == 0x1680
    ||| 0x2000 <= n <= 0x200a
    ||| n == 0x2028
    ||| n == 0x2029
    ||| n == 0x202f
    ||| n == 0x205f
    ||| n == 0x3000
}

/// Whether `c` is Unicode white space.
pub fn white_space(c: char) -> (r: bool)
    ensures
        r == is_white_space(c),
{
    let n: u32 = c as u32;
    (0x09 <= n && n <= 0x0d) || n == 0x20 || n == 0x85 || n == 0xa0 || n == 0x1680
        || (0x2000 <= n && n <= 0x200a) || n == 0x2028 || n == 0x2029 || n == 0x202f
        || n == 0x205f || n == 0x3000
}

/// `s` without its leading white space.
pub open spec fn trim_start(s: Seq<char>) -> Seq<char>
    decreases s.len(),
{
    if s.len() > 0 && is_white_space(s[0]) {
        trim_start(s.drop_first())
    } else {
        s
    }
}

/// `s` without its trailing white space.
pub open spec fn trim_end(s: Seq<char>) -> Seq<char>
    decreases s.len(),
{
    if s.len() > 0 && is_white_space(s.last()) {
        trim_end(s.drop_last())
    } else {
        s
    }
}

/// `s` without leading and trailing white space, as `str::trim` gives it.
pub open spec fn trimmed(s: Seq<char>) -> Seq<char> {
    trim_end(trim_start(s))
}

/// The maximal runs of non-white-space characters of `s`, in order, as
/// `str::split_whitespace` yields them.
pub open spec fn words(s: Seq<char>) -> Seq<Seq<char>>
    decreases s.len(),
{
    if s.len() == 0 {
        Seq::empty()
    } else {
        let w = words(s.drop_last());
        let c = s.last();
        if is_white_space(c) {
            w
        } else if s.len() >= 2 && !is_white_space(s[s.len() - 2]) {
            w.drop_last().push(w.last().push(c))
        } else {
            w.push(seq![c])
        }
    }
}

/// The pieces joined with one space between neighbours.
pub open spec fn join_spaced(ws: Seq<Seq<char>>) -> Seq<char>
    decreases ws.len(),
{
    if ws.len() == 0 {
        Seq::empty()
    } else if ws.len() == 1 {
        ws[0]
    } else {
        join_spaced(ws.drop_last()) + " "@ + ws.last()
    }
}

/// A text ending in a non-white-space character has at least one word.
pub proof fn lemma_words_nonempty(s: Seq<char>)
    requires
        s.len() > 0,
        !is_white_space(s.last()),
    ensures
        words(s).len() > 0,
    decreases s.len(),
{
    if s.len() >= 2 && !is_white_space(s[s.len() - 2]) {
        lemma_words_nonempty(s.drop_last());
    }
}

/// Whether `w` is a word: some characters, none of them white space.
pub open spec fn is_word(w: Seq<char>) -> bool {
    w.len() > 0 && forall|i: int| 0 <= i < w.len() ==> !is_white_space(#[trigger] w[i])
}

/// Every word of a text is a word, and a text has no words exactly when it is all white space.
pub proof fn lemma_words_shape(s: Seq<char>)
    ensures
        forall|k: int| 0 <= k < words(s).len() ==> is_word(#[trigger] words(s)[k]),
        words(s).len() == 0 <==> forall|i: int| 0 <= i < s.len() ==> is_white_space(#[trigger] s[i]),
    decreases s.len(),
{
    if s.len() > 0 {
        let p = s.drop_last();
        lemma_words_shape(p);
        let w = words(p);
        let c = s.last();
        let ws = words(s);
        if is_white_space(c) {
            assert((forall|i: int| 0 <= i < s.len() ==> is_white_space(#[trigger] s[i])) <==> (forall|i: int|
                0 <= i < p.len() ==> is_white_space(#[trigger] p[i]))) by {
                if forall|i: int| 0 <= i < p.len() ==> is_white_space(#[trigger] p[i]) {
                    assert forall|i: int| 0 <= i < s.len() implies is_white_space(#[trigger] s[i]) by {
                        if i < p.len() {
                            assert(s[i] == p[i]);
                        }
                    }
                }
                if forall|i: int| 0 <= i < s.len() ==> is_white_space(#[trigger] s[i]) {
                    assert forall|i: int| 0 <= i < p.len() implies is_white_space(#[trigger] p[i]) by {
                        assert(s[i] == p[i]);
                    }
                }
            }
        } else {
            assert(!is_white_space(s[s.len() - 1]));
            if s.len() >= 2 && !is_white_space(s[s.len() - 2]) {
                lemma_words_nonempty(p);
                let last = w.last().push(c);
                assert(is_word(w[w.len() - 1]));
                assert forall|k: int| 0 <= k < ws.len() implies is_word(#[trigger] ws[k]) by {
                    if k < w.len() - 1 {
                        assert(ws[k] == w[k]);
                    } else {
                        assert(ws[k] == last);
                        assert forall|i: int| 0 <= i < last.len() implies !is_white_space(#[trigger] last[i]) by {
                            if i < w.last().len() {
                                assert(last[i] == w.last()[i]);
                            }
                        }
                    }
                }
            } else {
                assert forall|k: int| 0 <= k < ws.len() implies is_word(#[trigger] ws[k]) by {
                    if k < w.len() {
                        assert(ws[k] == w[k]);
                    } else {
                        assert(ws[k] == seq![c]);
                    }
                }
            }
        }
    }
}

/// A word after a text that is empty or ends in white space is the text's last word.
pub proof fn lemma_words_append_word(t: Seq<char>, w: Seq<char>)
    requires
        t.len() == 0 || is_white_space(t.last()),
        is_word(w),
    ensures
        words(t + w) == words(t).push(w),
    decreases w.len(),
{
    let s = t + w;
    let c = w.last();
    assert(s.last() == c);
    assert(!is_white_space(w[w.len() - 1]));
    if w.len() == 1 {
        assert(s.drop_last() =~= t);
        assert(w =~= seq![c]);
        if s.len() >= 2 {
            assert(s[s.len() - 2] == t.last());
        }
    } else {
        let w1 = w.drop_last();
        assert forall|i: int| 0 <= i < w1.len() implies !is_white_space(#[trigger] w1[i]) by {
            assert(w1[i] == w[i]);
        }
        lemma_words_append_word(t, w1);
        assert(s.drop_last() =~= t + w1);
        assert(s[s.len() - 2] == w[w.len() - 2]);
        assert(!is_white_space(w[w.len() - 2]));
        assert(w1.push(c) =~= w);
        assert(words(t).push(w1).drop_last() =~= words(t));
    }
}

/// The words of words joined by single spaces are those words.
pub proof fn lemma_words_of_joined(ws: Seq<Seq<char>>)
    requires
        forall|k: int| 0 <= k < ws.len() ==> is_word(#[trigger] ws[k]),
    ensures
        words(join_spaced(ws)) == ws,
        ws.len() > 0 ==> join_spaced(ws).len() > 0,
    decreases ws.len(),
{
    if ws.len() == 0 {
        assert(words(Seq::<char>::empty()) =~= ws);
    } else if ws.len() == 1 {
        assert(is_word(ws[0]));
        lemma_words_append_word(Seq::empty(), ws[0]);
        assert(Seq::<char>::empty() + ws[0] =~= ws[0]);
        assert(Seq::<Seq<char>>::empty().push(ws[0]) =~= ws);
    } else {
        let front = ws.drop_last();
        assert forall|k: int| 0 <= k < front.len() implies is_word(#[trigger] front[k]) by {
            assert(front[k] == ws[k]);
        }
        lemma_words_of_joined(front);
        let t = join_spaced(front) + " "@;
        reveal_strlit(" ");
        assert(t.last() == ' ');
        assert(is_white_space(' '));
        assert(t.drop_last() =~= join_spaced(front));
        assert(words(t) == words(join_spaced(front)));
        assert(is_word(ws[ws.len() - 1]));
        lemma_words_append_word(t, ws.last());
        assert(ws =~= front.push(ws.last()));
    }
}

/// The characters of `s` without leading and trailing white space.
pub fn trim_chars(s: &Vec<char>) -> (r: Vec<char>)
    ensures
        r@ == trimmed(s@),
{
    let n: usize = s.len();
    let mut a: usize = 0;
    assert(s@.subrange(0, n as int) =~= s@);
    while a < n && white_space(s[a])
        invariant
            a <= n,
            n == s@.len(),
            trim_start(s@) == trim_start(s@.subrange(a as int, n as int)),
        decreases n - a,
    {
        assert(s@.subrange(a as int, n as int).drop_first() =~= s@.subrange(a as int + 1, n as int));
        a = a + 1;
    }
    assert(trim_start(s@.subrange(a as int, n as int)) == s@.subrange(a as int, n as int));
    let mut b: usize = n;
    while b > a && white_space(s[b - 1])
        invariant
            a <= b <= n,
            n == s@.len(),
            trim_end(s@.subrange(a as int, n as int)) == trim_end(s@.subrange(a as int, b as int)),
        decreases b - a,
    {
        assert(s@.subrange(a as int, b as int).drop_last() =~= s@.subrange(a as int, b as int - 1));
        b = b - 1;
    }
    let mut out: Vec<char> = Vec::new();
    let mut i: usize = a;
    while i < b
        invariant
            a <= i <= b,
            b <= n,
            n == s@.len(),
            out@ == s@.subrange(a as int, i as int),
        decreases b - i,
    {
        out.push(s[i]);
        i = i + 1;
    }
    out
}


/// Whether `pat` occurs in `s` at position `i`.
pub open spec fn occurs_at(s: Seq<char>, pat: Seq<char>, i: int) -> bool {
    0 <= i && i + pat.len() <= s.len() && s.subrange(i, i + pat.len()) == pat
}

/// The first position at or after `i` where `pat` occurs in `s`.
pub open spec fn first_occurrence(s: Seq<char>, pat: Seq<char>, i: nat) -> Option<nat>
    decreases s.len() + 1 - i,
{
    if i + pat.len() > s.len() {
        None
    } else if occurs_at(s, pat, i as int) {
        Some(i)
    } else {
        first_occurrence(s, pat, i + 1)
    }
}

/// The first position at or after `from` where `pat` occurs in `s`.
pub fn find_text(s: &Vec<char>, pat: &Vec<char>, from: usize) -> (r: Option<usize>)
    requires
        from <= s@.len(),
    ensures
        r is None <==> first_occurrence(s@, pat@, from as nat) is None,
        r matches Some(i) ==> first_occurrence(s@, pat@, from as nat) == Some(i as nat),
{
    let n = s.len();
    let m = pat.len();
    if m > n {
        return None;
    }
    if from > n - m {
        return None;
    }
    let mut i: usize = from;
    loop
        invariant
            from <= i <= n - m,
            n == s@.len(),
            m == pat@.len(),
            m <= n,
            first_occurrence(s@, pat@, from as nat) == first_occurrence(s@, pat@, i as nat),
        decreases n - m - i,
    {
        let mut j: usize = 0;
        let mut same = true;
        assert(s@.subrange(i as int, i as int) =~= pat@.subrange(0, 0));
        while j < m
            invariant
                j <= m,
                i + m <= n,
                n == s@.len(),
                m == pat@.len(),
                same == (s@.subrange(i as int, i + j) == pat@.subrange(0, j as int)),
            decreases m - j,
        {
            if s[i + j] != pat[j] {
                same = false;
                assert(s@.subrange(i as int, i + j + 1)[j as int] != pat@.subrange(0, j + 1)[j as int]);
            } else if same {
                assert(s@.subrange(i as int, i + j + 1) =~= s@.subrange(i as int, i + j).push(s@[i + j]));
                assert(pat@.subrange(0, j + 1) =~= pat@.subrange(0, j as int).push(pat@[j as int]));
            }
            if !same {
                assert(s@.subrange(i as int, i + j + 1) != pat@.subrange(0, j + 1)) by {
                    if s@.subrange(i as int, i + j + 1) == pat@.subrange(0, j + 1) {
                        assert(s@.subrange(i as int, i + j) =~= s@.subrange(i as int, i + j + 1).take(j as int));
                        assert(pat@.subrange(0, j as int) =~= pat@.subrange(0, j + 1).take(j as int));
                    }
                }
            }
            j = j + 1;
        }
        assert(pat@.subrange(0, m as int) =~= pat@);
        if same {
            return Some(i);
        }
        assert(!occurs_at(s@, pat@, i as int));
        assert(first_occurrence(s@, pat@, i as nat) == first_occurrence(s@, pat@, (i + 1) as nat));
        if i == n - m {
            assert(first_occurrence(s@, pat@, (i + 1) as nat) is None);
            return None;
        }
        i = i + 1;
    }
}

/// The first position at or after `i` holding `c`, or the length when none does.
pub open spec fn char_position(s: Seq<char>, c: char, i: nat) -> nat
    decreases s.len() - i,
{
    if i >= s.len() {
        s.len()
    } else if s[i as int] == c {
        i
    } else {
        char_position(s, c, i + 1)
    }
}

/// The first position at or after `from` holding `c`, or the length when none does.
pub fn find_char(s: &Vec<char>, c: char, from: usize) -> (r: usize)
    requires
        from <= s@.len(),
    ensures
        r == char_position(s@, c, from as nat),
{
    let mut i: usize = from;
    while i < s.len() && s[i] != c
        invariant
            from <= i <= s@.len(),
            char_position(s@, c, from as nat) == char_position(s@, c, i as nat),
        decreases s@.len() - i,
    {
        i = i + 1;
    }
    i
}

/// A line without the carriage return of a `\r\n` ending.
pub open spec fn without_cr(line: Seq<char>, ended: bool) -> Seq<char> {
    if ended && line.len() > 0 && line.last() == '\r' {
        line.drop_last()
    } else {
        line
    }
}

/// The lines of a text as `str::lines` yields them: split at `\n`, a `\r` right before a `\n`
/// dropped, and no empty line after a final line ending.
pub open spec fn lines_of(s: Seq<char>) -> Seq<Seq<char>>
    decreases s.len(),
{
    if s.len() == 0 {
        Seq::empty()
    } else {
        let i = char_position(s, '\n', 0);
        if i >= s.len() {
            seq![s]
        } else {
            seq![without_cr(s.take(i as int), true)] + lines_of(s.subrange(i as int + 1, s.len() as int))
        }
    }
}

pub proof fn lemma_char_position_bounds(s: Seq<char>, c: char, i: nat)
    ensures
        i <= s.len() ==> i <= char_position(s, c, i) <= s.len(),
        char_position(s, c, i) < s.len() ==> s[char_position(s, c, i) as int] == c,
    decreases s.len() - i,
{
    if i < s.len() && s[i as int] != c {
        lemma_char_position_bounds(s, c, i + 1);
    }
}

/// The first line of a text, empty for an empty text.
pub open spec fn first_line(s: Seq<char>) -> Seq<char> {
    if lines_of(s).len() == 0 {
        Seq::empty()
    } else {
        lines_of(s)[0]
    }
}

/// The lines of `s` from position `from` on.
pub fn lines_from(s: &Vec<char>, from: usize) -> (r: Vec<Vec<char>>)
    requires
        from <= s@.len(),
    ensures
        r@.len() == lines_of(s@.subrange(from as int, s@.len() as int)).len(),
        forall|i: int| 0 <= i < r@.len() ==> #[trigger] r@[i]@ == lines_of(s@.subrange(from as int, s@.len() as int))[i],
    decreases s@.len() - from,
{
    let ghost rest = s@.subrange(from as int, s@.len() as int);
    if from == s.len() {
        return Vec::new();
    }
    let end = find_char(s, '\n', from);
    proof {
        lemma_char_position_bounds(s@, '\n', from as nat);
        lemma_shifted_position(s@, '\n', from as nat);
    }
    let mut line: Vec<char> = Vec::new();
    let mut k: usize = from;
    while k < end
        invariant
            from <= k <= end,
            end <= s@.len(),
            line@ == s@.subrange(from as int, k as int),
        decreases end - k,
    {
        line.push(s[k]);
        assert(line@ =~= s@.subrange(from as int, k + 1));
        k = k + 1;
    }
    if end == s.len() {
        assert(line@ =~= rest);
        let mut out: Vec<Vec<char>> = Vec::new();
        out.push(line);
        return out;
    }
    if line.len() > 0 && line[line.len() - 1] == '\r' {
        line.pop();
    }
    assert(line@ == without_cr(rest.take(end - from), true));
    let tail = lines_from(s, end + 1);
    assert(rest.subrange(end - from + 1, rest.len() as int) =~= s@.subrange(end + 1, s@.len() as int));
    let mut out: Vec<Vec<char>> = Vec::new();
    out.push(line);
    let mut t: usize = 0;
    while t < tail.len()
        invariant
            t <= tail@.len(),
            out@.len() == t + 1,
            out@[0]@ == without_cr(rest.take(end - from), true),
            forall|i: int| 0 < i <= t ==> #[trigger] out@[i]@ == tail@[i - 1]@,
        decreases tail@.len() - t,
    {
        out.push(tail[t].clone());
        t = t + 1;
    }
    proof {
        let expected = lines_of(rest);
        assert(expected == seq![without_cr(rest.take(end - from), true)] + lines_of(s@.subrange(end + 1, s@.len() as int)));
        assert forall|i: int| 0 <= i < out@.len() implies #[trigger] out@[i]@ == expected[i] by {
            if i > 0 {
                assert(tail@[i - 1]@ == lines_of(s@.subrange(end + 1, s@.len() as int))[i - 1]);
            }
        }
    }
    out
}

/// A position found in a suffix is the position found in the whole, shifted.
proof fn lemma_shifted_position(s: Seq<char>, c: char, from: nat)
    requires
        from < s.len(),
    ensures
        char_position(s.subrange(from as int, s.len() as int), c, 0) + from == char_position(s, c, from),
{
    lemma_shift_general(s, c, from, 0);
}

proof fn lemma_shift_general(s: Seq<char>, c: char, from: nat, k: nat)
    requires
        from <= s.len(),
        from + k <= s.len(),
    ensures
        char_position(s.subrange(from as int, s.len() as int), c, k) + from == char_position(s, c, from + k),
    decreases s.len() - from - k,
{
    let t = s.subrange(from as int, s.len() as int);
    if from + k < s.len() {
        assert(t[k as int] == s[(from + k) as int]);
        if s[(from + k) as int] != c {
            lemma_shift_general(s, c, from, k + 1);
        }
    }
}


/// A position `first_occurrence` finds is at or after where the search started, and `pat`
/// occurs there.
pub proof fn lemma_first_occurrence(s: Seq<char>, pat: Seq<char>, i: nat)
    ensures
        first_occurrence(s, pat, i) matches Some(k) ==> i <= k && occurs_at(s, pat, k as int),
    decreases s.len() + 1 - i,
{
    if i + pat.len() <= s.len() && !occurs_at(s, pat, i as int) {
        lemma_first_occurrence(s, pat, i + 1);
    }
}

/// The characters of `v` from `from` on.
pub fn chars_from(v: &Vec<char>, from: usize) -> (r: Vec<char>)
    requires
        from <= v@.len(),
    ensures
        r@ == v@.subrange(from as int, v@.len() as int),
{
    let mut out: Vec<char> = Vec::new();
    let mut k: usize = from;
    while k < v.len()
        invariant
            from <= k <= v@.len(),
            out@ == v@.subrange(from as int, k as int),
        decreases v@.len() - k,
    {
        out.push(v[k]);
        assert(out@ =~= v@.subrange(from as int, k + 1));
        k = k + 1;
    }
    out
}

/// Appends the characters `v[from..to]` to `s`.
pub fn push_range(s: &mut String, v: &Vec<char>, from: usize, to: usize)
    requires
        from <= to <= v@.len(),
    ensures
        final(s)@ == old(s)@ + v@.subrange(from as int, to as int),
{
    let ghost start = s@;
    let mut k: usize = from;
    while k < to
        invariant
            from <= k <= to,
            to <= v@.len(),
            s@ == start + v@.subrange(from as int, k as int),
        decreases to - k,
    {
        push_char(s, v[k]);
        assert(start + v@.subrange(from as int, k + 1) =~= (start + v@.subrange(from as int, k as int)).push(v@[k as int]));
        k = k + 1;
    }
}

/// Whether `a` comes before `b` in the order of their characters' code points, a proper prefix
/// first. UTF-8 keeps the order of code points, so this is the order of `str`, which compares
/// bytes.
pub open spec fn text_less(a: Seq<char>, b: Seq<char>) -> bool
    decreases a.len(),
{
    if b.len() == 0 {
        false
    } else if a.len() == 0 {
        true
    } else if a[0] != b[0] {
        a[0] < b[0]
    } else {
        text_less(a.drop_first(), b.drop_first())
    }
}

/// No text comes before itself.
pub proof fn lemma_text_less_irreflexive(a: Seq<char>)
    ensures
        !text_less(a, a),
    decreases a.len(),
{
    if a.len() > 0 {
        lemma_text_less_irreflexive(a.drop_first());
    }
}

/// The order of texts is transitive.
pub proof fn lemma_text_less_transitive(a: Seq<char>, b: Seq<char>, c: Seq<char>)
    requires
        text_less(a, b),
        text_less(b, c),
    ensures
        text_less(a, c),
    decreases a.len(),
{
    if a.len() > 0 && b.len() > 0 && c.len() > 0 && a[0] == b[0] && b[0] == c[0] {
        lemma_text_less_transitive(a.drop_first(), b.drop_first(), c.drop_first());
    }
}

/// Of two different texts, one comes before the other.
pub proof fn lemma_text_less_total(a: Seq<char>, b: Seq<char>)
    requires
        a != b,
    ensures
        text_less(a, b) || text_less(b, a),
    decreases a.len(),
{
    if a.len() > 0 && b.len() > 0 {
        if a[0] == b[0] {
            assert(a =~= seq![a[0]] + a.drop_first());
            assert(b =~= seq![b[0]] + b.drop_first());
            lemma_text_less_total(a.drop_first(), b.drop_first());
        }
    } else if a.len() == 0 && b.len() == 0 {
        assert(a =~= b);
    }
}

/// Whether `a` comes before `b` in the order of `str`.
pub fn text_precedes(a: &str, b: &str) -> (r: bool)
    ensures
        r == text_less(a@, b@),
{
    let x = chars_of(a);
    let y = chars_of(b);
    let mut i: usize = 0;
    assert(a@.skip(0) =~= a@);
    assert(b@.skip(0) =~= b@);
    while i < x.len() && i < y.len() && x[i] == y[i]
        invariant
            i <= x@.len(),
            i <= y@.len(),
            x@ == a@,
            y@ == b@,
            text_less(a@, b@) == text_less(a@.skip(i as int), b@.skip(i as int)),
        decreases x@.len() - i,
    {
        assert(a@.skip(i as int)[0] == a@[i as int]);
        assert(a@.skip(i as int).drop_first() =~= a@.skip(i + 1));
        assert(b@.skip(i as int).drop_first() =~= b@.skip(i + 1));
        i = i + 1;
    }
    if i == y.len() {
        false
    } else if i == x.len() {
        true
    } else {
        x[i] < y[i]
    }
}

} // verus!
