//! Character-level helpers shared by the codec, the extractors and the
//! readers: Unicode whitespace, trimming, searching and splitting into lines.
use vstd::prelude::*;

verus! {

/// The characters with the Unicode `White_Space` property, which is what
/// `char::is_whitespace` and `str::trim` go by.
pub open spec fn is_ws(c: char) -> bool {
    let u = c as u32;
    ||| 0x09 <= u <= 0x0d
    ||| u == 0x20
    ||| u == 0x85
    ||| u == 0xa0
    ||| u == 0x1680
    ||| 0x2000 <= u <= 0x200a
    ||| u == 0x2028
    ||| u == 0x2029
    ||| u == 0x202f
    ||| u == 0x205f
    ||| u == 0x3000
}

pub open spec fn trim_start(s: Seq<char>) -> Seq<char>
    decreases s.len(),
{
    if s.len() > 0 && is_ws(s[0]) {
        trim_start(s.drop_first())
    } else {
        s
    }
}

pub open spec fn trim_end(s: Seq<char>) -> Seq<char>
    decreases s.len(),
{
    if s.len() > 0 && is_ws(s.last()) {
        trim_end(s.drop_last())
    } else {
        s
    }
}

/// `s` without its leading and trailing whitespace.
pub open spec fn trim(s: Seq<char>) -> Seq<char> {
    trim_end(trim_start(s))
}

/// Whether `s` begins with `prefix`.
pub open spec fn starts_with(s: Seq<char>, prefix: Seq<char>) -> bool {
    prefix.len() <= s.len() && s.take(prefix.len() as int) == prefix
}

/// Whether `c` occurs in `s`.
pub open spec fn contains_char(s: Seq<char>, c: char) -> bool {
    exists|i: int| 0 <= i < s.len() && s[i] == c
}

/// The first index at or after `from` where `c` stands, or the length of `s`.
pub open spec fn find_from(s: Seq<char>, c: char, from: int) -> int
    decreases s.len() - from,
{
    if from < 0 || from >= s.len() {
        s.len() as int
    } else if s[from] == c {
        from
    } else {
        find_from(s, c, from + 1)
    }
}

/// The text before the first line break.
pub open spec fn first_line(s: Seq<char>) -> Seq<char> {
    s.take(find_from(s, '\n', 0))
}

/// `s` cut at each `'\n'`; the breaks themselves are dropped, so text that
/// ends in a break has an empty last line.
pub open spec fn lines_of(s: Seq<char>) -> Seq<Seq<char>>
    decreases s.len(),
{
    if s.len() == 0 {
        seq![Seq::empty()]
    } else {
        let prev = lines_of(s.drop_last());
        if s.last() == '\n' {
            prev.push(Seq::empty())
        } else {
            prev.drop_last().push(prev.last().push(s.last()))
        }
    }
}

/// What a reading of a pseudo-file yields: its first line, trimmed.
pub open spec fn line_value_of(content: Seq<char>) -> Seq<char> {
    trim(first_line(content))
}

pub proof fn lemma_find_from_bounds(s: Seq<char>, c: char, from: int)
    requires
        0 <= from <= s.len(),
    ensures
        from <= find_from(s, c, from) <= s.len(),
        find_from(s, c, from) < s.len() ==> s[find_from(s, c, from)] == c,
        forall|k: int| from <= k < find_from(s, c, from) ==> s[k] != c,
    decreases s.len() - from,
{
    if from < s.len() && s[from] != c {
        lemma_find_from_bounds(s, c, from + 1);
    }
}

/// Trimming leaves alone text that neither begins nor ends with whitespace.
pub proof fn lemma_trim_clean(s: Seq<char>)
    requires
        s.len() == 0 || (!is_ws(s[0]) && !is_ws(s.last())),
    ensures
        trim(s) == s,
{
}

/// Trimming the end keeps a prefix, and every character that is not
/// whitespace stays.
pub proof fn lemma_trim_end_prefix(s: Seq<char>)
    ensures
        trim_end(s).len() <= s.len(),
        trim_end(s) == s.take(trim_end(s).len() as int),
        forall|i: int| 0 <= i < s.len() && !is_ws(#[trigger] s[i]) ==> i < trim_end(s).len(),
        trim_end(s).len() > 0 ==> !is_ws(trim_end(s).last()),
    decreases s.len(),
{
    if s.len() > 0 && is_ws(s.last()) {
        lemma_trim_end_prefix(s.drop_last());
        let t = trim_end(s.drop_last());
        assert(s.drop_last().take(t.len() as int) =~= s.take(t.len() as int));
        assert forall|i: int| 0 <= i < s.len() && !is_ws(#[trigger] s[i]) implies i < t.len() by {
            if i < s.len() - 1 {
                assert(s.drop_last()[i] == s[i]);
            }
        }
    } else {
        assert(s.take(s.len() as int) =~= s);
    }
}

/// Trimming the start keeps a suffix.
pub proof fn lemma_trim_start_suffix(s: Seq<char>)
    ensures
        trim_start(s).len() <= s.len(),
        trim_start(s) == s.skip(s.len() - trim_start(s).len()),
    decreases s.len(),
{
    if s.len() > 0 && is_ws(s[0]) {
        lemma_trim_start_suffix(s.drop_first());
        let t = trim_start(s.drop_first());
        assert(s.drop_first().skip(s.len() - 1 - t.len()) =~= s.skip(s.len() - t.len()));
    } else {
        assert(s.skip(0) =~= s);
    }
}

/// Trimming adds no character.
pub proof fn lemma_trim_keeps_out(s: Seq<char>, c: char)
    requires
        !contains_char(s, c),
    ensures
        !contains_char(trim(s), c),
{
    lemma_trim_start_suffix(s);
    let a = trim_start(s);
    lemma_trim_end_prefix(a);
    let b = trim(s);
    assert forall|i: int| 0 <= i < b.len() implies b[i] != c by {
        assert(b[i] == a[i]);
        assert(a[i] == s[s.len() - a.len() + i]);
    }
}

/// The lines of any text hold no break.
pub proof fn lemma_lines_of_unbroken(s: Seq<char>)
    ensures
        forall|i: int| 0 <= i < lines_of(s).len() ==> !contains_char(#[trigger] lines_of(s)[i], '\n'),
    decreases s.len(),
{
    if s.len() > 0 {
        lemma_lines_of_unbroken(s.drop_last());
        let prev = lines_of(s.drop_last());
        let cur = lines_of(s);
        if s.last() != '\n' {
            let l = prev.last();
            assert(!contains_char(prev[prev.len() - 1], '\n'));
            assert forall|i: int| 0 <= i < cur.len() implies !contains_char(#[trigger] cur[i], '\n') by {
                if i < prev.len() - 1 {
                    assert(cur[i] == prev[i]);
                } else {
                    assert(cur[i] == l.push(s.last()));
                    assert forall|q: int| 0 <= q < cur[i].len() implies cur[i][q] != '\n' by {
                        if q < l.len() {
                            assert(cur[i][q] == l[q]);
                        }
                    }
                }
            }
        } else {
            assert forall|i: int| 0 <= i < cur.len() implies !contains_char(#[trigger] cur[i], '\n') by {
                if i < prev.len() {
                    assert(cur[i] == prev[i]);
                }
            }
        }
    }
}

/// Lines that hold no break, each followed by a break.
pub open spec fn join_lines(ls: Seq<Seq<char>>) -> Seq<char>
    decreases ls.len(),
{
    if ls.len() == 0 {
        Seq::empty()
    } else {
        join_lines(ls.drop_last()) + ls.last() + seq!['\n']
    }
}

/// Splitting text that ends in a break, extended by one more line.
proof fn lemma_lines_of_extend(p: Seq<char>, ls: Seq<Seq<char>>, l: Seq<char>, k: int)
    requires
        lines_of(p) == ls.push(Seq::<char>::empty()),
        0 <= k <= l.len(),
        !contains_char(l, '\n'),
    ensures
        lines_of(p + l.take(k)) == ls.push(l.take(k)),
    decreases k,
{
    if k == 0 {
        assert(p + l.take(0) =~= p);
        assert(l.take(0) =~= Seq::<char>::empty());
    } else {
        lemma_lines_of_extend(p, ls, l, k - 1);
        let t = p + l.take(k);
        assert(t.drop_last() =~= p + l.take(k - 1));
        assert(t.last() == l[k - 1]);
        assert(l.take(k - 1).push(l[k - 1]) =~= l.take(k));
        assert(ls.push(l.take(k - 1)).drop_last() =~= ls);
    }
}

/// Joining lines without breaks and splitting again gives the lines back,
/// with the empty line after the final break.
pub proof fn lemma_lines_of_join(ls: Seq<Seq<char>>)
    requires
        forall|i: int| 0 <= i < ls.len() ==> !contains_char(#[trigger] ls[i], '\n'),
    ensures
        lines_of(join_lines(ls)) == ls.push(Seq::<char>::empty()),
    decreases ls.len(),
{
    if ls.len() == 0 {
        assert(lines_of(Seq::<char>::empty()) =~= seq![Seq::<char>::empty()]);
        assert(ls.push(Seq::<char>::empty()) =~= seq![Seq::<char>::empty()]);
    } else {
        let front = ls.drop_last();
        let l = ls.last();
        assert forall|i: int| 0 <= i < front.len() implies !contains_char(
            #[trigger] front[i],
            '\n',
        ) by {
            assert(front[i] == ls[i]);
        }
        lemma_lines_of_join(front);
        assert(!contains_char(ls[ls.len() - 1], '\n'));
        lemma_lines_of_extend(join_lines(front), front, l, l.len() as int);
        assert(l.take(l.len() as int) =~= l);
        let t = join_lines(ls);
        assert(t == join_lines(front) + l + seq!['\n']);
        assert(t.drop_last() =~= join_lines(front) + l);
        assert(front.push(l) =~= ls);
    }
}

/// Whether `c` has the Unicode `White_Space` property.
pub fn is_whitespace(c: char) -> (r: bool)
    ensures
        r == is_ws(c),
{
    let u = c as u32;
    (0x09 <= u && u <= 0x0d) || u == 0x20 || u == 0x85 || u == 0xa0 || u == 0x1680 || (0x2000
        <= u && u <= 0x200a) || u == 0x2028 || u == 0x2029 || u == 0x202f || u == 0x205f || u
        == 0x3000
}

/// The characters of `s`, in order.
pub fn to_chars(s: &str) -> (r: Vec<char>)
    ensures
        r@ == s@,
{
    let mut out: Vec<char> = Vec::new();
    for c in iter: s.chars()
        invariant
            out@ == iter.seq().take(iter.index() as int),
    {
        out.push(c);
    }
    out
}

/// The bounds, within `from..to`, of that stretch with its whitespace trimmed.
pub fn trim_bounds(chars: &Vec<char>, from: usize, to: usize) -> (r: (usize, usize))
    requires
        from <= to <= chars.len(),
    ensures
        from <= r.0 <= r.1 <= to,
        chars@.subrange(r.0 as int, r.1 as int) == trim(chars@.subrange(from as int, to as int)),
{
    let mut a = from;
    while a < to && is_whitespace(chars[a])
        invariant
            from <= a <= to <= chars.len(),
            trim_start(chars@.subrange(from as int, to as int)) == trim_start(
                chars@.subrange(a as int, to as int),
            ),
        decreases to - a,
    {
        assert(chars@.subrange(a as int, to as int).drop_first() =~= chars@.subrange(
            a + 1,
            to as int,
        ));
        a = a + 1;
    }
    let mut b = to;
    while b > a && is_whitespace(chars[b - 1])
        invariant
            from <= a <= b <= to <= chars.len(),
            trim(chars@.subrange(from as int, to as int)) == trim_end(
                chars@.subrange(a as int, b as int),
            ),
        decreases b - a,
    {
        assert(chars@.subrange(a as int, b as int).drop_last() =~= chars@.subrange(
            a as int,
            b - 1,
        ));
        b = b - 1;
    }
    (a, b)
}

/// The first index at or after `from` where `c` stands in `chars`, or its length.
pub fn find_char(chars: &Vec<char>, c: char, from: usize) -> (r: usize)
    requires
        from <= chars.len(),
    ensures
        r == find_from(chars@, c, from as int),
{
    let mut i = from;
    while i < chars.len() && chars[i] != c
        invariant
            from <= i <= chars.len(),
            find_from(chars@, c, from as int) == find_from(chars@, c, i as int),
        decreases chars.len() - i,
    {
        i = i + 1;
    }
    i
}

/// Whether the stretch `from..to` of `chars` begins with `prefix`.
pub fn starts_with_at(chars: &Vec<char>, from: usize, to: usize, prefix: &str) -> (r: bool)
    requires
        from <= to <= chars.len(),
    ensures
        r == starts_with(chars@.subrange(from as int, to as int), prefix@),
{
    let p = to_chars(prefix);
    let ghost s = chars@.subrange(from as int, to as int);
    if p.len() > to - from {
        return false;
    }
    let mut k: usize = 0;
    while k < p.len()
        invariant
            p@ == prefix@,
            from <= to <= chars.len(),
            s == chars@.subrange(from as int, to as int),
            p.len() <= to - from,
            k <= p.len(),
            forall|j: int| 0 <= j < k ==> s[j] == p@[j],
        decreases p.len() - k,
    {
        if chars[from + k] != p[k] {
            assert(s.take(p.len() as int)[k as int] != p@[k as int]);
            return false;
        }
        k = k + 1;
    }
    assert(s.take(p.len() as int) =~= p@);
    true
}

/// The text of `s` between the character positions `from` and `to`.
pub fn slice_string(s: &str, from: usize, to: usize) -> (r: String)
    requires
        from <= to <= s@.len(),
    ensures
        r@ == s@.subrange(from as int, to as int),
{
    String::from_str(s.substring_char(from, to))
}

/// The first line of `content`, trimmed: the value a pseudo-file reads as.
pub fn line_value(content: &str) -> (r: String)
    ensures
        r@ == line_value_of(content@),
{
    let chars = to_chars(content);
    let end = find_char(&chars, '\n', 0);
    proof {
        lemma_find_from_bounds(chars@, '\n', 0);
    }
    let (a, b) = trim_bounds(&chars, 0, end);
    assert(chars@.subrange(0, end as int) =~= first_line(content@));
    slice_string(content, a, b)
}

/// The part of a path after its last `/`.
pub open spec fn base_name(s: Seq<char>) -> Seq<char>
    decreases s.len(),
{
    if s.len() == 0 {
        s
    } else if s.last() == '/' {
        Seq::empty()
    } else {
        base_name(s.drop_last()).push(s.last())
    }
}

/// The last component of a path, as `Path::file_name` gives it on Unix:
/// trailing `/` and `.` components are skipped, and a path that ends in
/// `..`, or has no component left, has none.
pub open spec fn last_component(s: Seq<char>) -> Option<Seq<char>>
    decreases s.len(),
{
    if s.len() == 0 {
        None
    } else if s.last() == '/' {
        last_component(s.drop_last())
    } else if base_name(s) == seq!['.'] {
        last_component(s.drop_last())
    } else if base_name(s) == seq!['.', '.'] {
        None
    } else {
        Some(base_name(s))
    }
}

/// Where the part of `chars[..j]` after its last `/` begins.
fn segment_start(chars: &Vec<char>, j: usize) -> (k: usize)
    requires
        j <= chars.len(),
    ensures
        k <= j,
        chars@.subrange(k as int, j as int) == base_name(chars@.take(j as int)),
        j > 0 && chars@[j - 1] != '/' ==> k < j,
{
    let mut k = j;
    assert(chars@.take(j as int).take(j as int) =~= chars@.take(j as int));
    assert(chars@.subrange(j as int, j as int) =~= Seq::<char>::empty());
    while k > 0 && chars[k - 1] != '/'
        invariant
            k <= j <= chars.len(),
            base_name(chars@.take(j as int)) == base_name(chars@.take(k as int)) + chars@.subrange(
                k as int,
                j as int,
            ),
        decreases k,
    {
        let ghost t = chars@.take(k as int);
        assert(t.drop_last() =~= chars@.take(k - 1));
        assert(base_name(t) == base_name(chars@.take(k - 1)).push(chars@[k - 1]));
        assert(base_name(chars@.take(k - 1)).push(chars@[k - 1]) + chars@.subrange(k as int, j as int)
            =~= base_name(chars@.take(k - 1)) + chars@.subrange(k - 1, j as int));
        k = k - 1;
    }
    proof {
        let t = chars@.take(k as int);
        if k > 0 {
            assert(t.last() == '/');
        }
        assert(base_name(t) =~= Seq::<char>::empty());
        assert(base_name(chars@.take(j as int)) =~= chars@.subrange(k as int, j as int));
    }
    k
}

/// The last component of `path`, as `Path::file_name` gives it on Unix.
pub fn file_name(path: &str) -> (r: Option<String>)
    ensures
        opt_string(r) == last_component(path@),
{
    let chars = to_chars(path);
    let n = chars.len();
    let mut j = n;
    assert(chars@.take(n as int) =~= path@);
    loop
        invariant
            chars@ == path@,
            n == chars.len(),
            j <= n,
            last_component(path@) == last_component(chars@.take(j as int)),
        decreases j,
    {
        let ghost t = chars@.take(j as int);
        if j == 0 {
            return None;
        }
        assert(t.drop_last() =~= chars@.take(j - 1));
        if chars[j - 1] == '/' {
            j = j - 1;
        } else {
            let k = segment_start(&chars, j);
            let ghost seg = chars@.subrange(k as int, j as int);
            if j - k == 1 && chars[k] == '.' {
                assert(seg =~= seq!['.']);
                j = j - 1;
            } else if j - k == 2 && chars[k] == '.' && chars[k + 1] == '.' {
                assert(seg =~= seq!['.', '.']);
                return None;
            } else {
                assert(seg != seq!['.']) by {
                    if seg == seq!['.'] {
                        assert(seg.len() == 1 && seg[0] == chars@[k as int]);
                    }
                }
                assert(seg != seq!['.', '.']) by {
                    if seg == seq!['.', '.'] {
                        assert(seg.len() == 2 && seg[0] == chars@[k as int] && seg[1] == chars@[k + 1]);
                    }
                }
                return Some(slice_string(path, k, j));
            }
        }
    }
}

pub open spec fn read_text_spec(content: Option<Seq<char>>) -> Option<Seq<char>> {
    match content {
        Some(c) => Some(line_value_of(c)),
        None => None,
    }
}

pub open spec fn opt_text(o: Option<&str>) -> Option<Seq<char>> {
    match o {
        Some(s) => Some(s@),
        None => None,
    }
}

pub open spec fn opt_string(o: Option<String>) -> Option<Seq<char>> {
    match o {
        Some(s) => Some(s@),
        None => None,
    }
}

/// What a read file holds as a value: its first line, trimmed.
pub fn read_text(content: &Option<String>) -> (r: Option<String>)
    ensures
        opt_string(r) == read_text_spec(opt_string(*content)),
{
    match content {
        Some(c) => Some(line_value(c.as_str())),
        None => None,
    }
}

} // verus!
