//! The snapshot text format: control points between two banner lines, each
//! as `+ <path>` followed by its value or a diagnostic line.
use vstd::prelude::*;

use crate::config::{
    plus_prefix, value_line, warning_prefix, Config, ConfigView, Permission,
};
use crate::extract::Extractor;
use crate::text::{
    contains_char, is_ws, join_lines, lemma_lines_of_join, lemma_lines_of_unbroken,
    lemma_trim_end_prefix, lemma_trim_keeps_out, trim_start,
    lemma_trim_clean, lines_of, slice_string, starts_with, starts_with_at, to_chars, trim,
    trim_bounds,
};

verus! {

pub open spec fn dashes(n: nat) -> Seq<char> {
    Seq::new(n, |i: int| '-')
}

/// The banner line written before and after the records.
pub open spec fn banner() -> Seq<char> {
    dashes(14)
}

/// A banner is any line that begins with ten dashes.
pub open spec fn is_banner(l: Seq<char>) -> bool {
    starts_with(l, dashes(10))
}

/// `"ERROR:"`
pub open spec fn error_tag() -> Seq<char> {
    seq!['E', 'R', 'R', 'O', 'R', ':']
}

/// `"WARNING:"`
pub open spec fn warning_tag() -> Seq<char> {
    seq!['W', 'A', 'R', 'N', 'I', 'N', 'G', ':']
}

/// A line that says the value of the record before it could not be read.
pub open spec fn is_diagnostic(l: Seq<char>) -> bool {
    starts_with(l, error_tag()) || starts_with(l, warning_tag())
}

pub open spec fn views(v: Seq<Config>) -> Seq<ConfigView> {
    v.map_values(|c: Config| c@)
}

/// The two lines of each point, in order.
pub open spec fn block_lines(ps: Seq<ConfigView>) -> Seq<Seq<char>>
    decreases ps.len(),
{
    if ps.len() == 0 {
        Seq::empty()
    } else {
        block_lines(ps.drop_last()) + seq![plus_prefix() + ps.last().node, value_line(ps.last())]
    }
}

/// The lines of a snapshot of `ps` between banners of `k` dashes.
pub open spec fn snapshot_lines_with(ps: Seq<ConfigView>, k: nat) -> Seq<Seq<char>> {
    seq![dashes(k)] + block_lines(ps) + seq![dashes(k)]
}

/// The text of a snapshot of `ps` between banners of `k` dashes.
pub open spec fn snapshot_text_with(ps: Seq<ConfigView>, k: nat) -> Seq<char> {
    join_lines(snapshot_lines_with(ps, k))
}

/// The lines of the snapshot of `ps`, as it is written.
pub open spec fn snapshot_lines(ps: Seq<ConfigView>) -> Seq<Seq<char>> {
    snapshot_lines_with(ps, 14)
}

/// The text of the snapshot of `ps`: each of its lines followed by a break.
pub open spec fn snapshot_text(ps: Seq<ConfigView>) -> Seq<char> {
    join_lines(snapshot_lines(ps))
}

/// Where a forward scan over the lines of a snapshot stands.
pub enum ParsePhase {
    BeforeBanner,
    AwaitingRecord,
    AwaitingValue(Seq<char>),
    Finished,
}

/// One transition of the scan on a trimmed line, with the (path, value)
/// record it completes, if any.
pub open spec fn step(ph: ParsePhase, l: Seq<char>) -> (ParsePhase, Option<(Seq<char>, Seq<char>)>) {
    match ph {
        ParsePhase::Finished => (ParsePhase::Finished, None),
        ParsePhase::BeforeBanner => if is_banner(l) {
            (ParsePhase::AwaitingRecord, None)
        } else {
            (ParsePhase::BeforeBanner, None)
        },
        _ => if is_banner(l) {
            (ParsePhase::Finished, None)
        } else if l.len() == 0 {
            (ph, None)
        } else if starts_with(l, plus_prefix()) {
            (ParsePhase::AwaitingValue(l.skip(2)), None)
        } else {
            match ph {
                ParsePhase::AwaitingValue(path) => if is_diagnostic(l) {
                    (ParsePhase::AwaitingRecord, None)
                } else {
                    (ParsePhase::AwaitingRecord, Some((path, l)))
                },
                _ => (ph, None),
            }
        },
    }
}

/// The phase after scanning `ls`, each line trimmed, and the records found.
pub open spec fn parse_lines(ls: Seq<Seq<char>>) -> (ParsePhase, Seq<(Seq<char>, Seq<char>)>)
    decreases ls.len(),
{
    if ls.len() == 0 {
        (ParsePhase::BeforeBanner, Seq::empty())
    } else {
        let prev = parse_lines(ls.drop_last());
        let next = step(prev.0, trim(ls.last()));
        (
            next.0,
            match next.1 {
                Some(r) => prev.1.push(r),
                None => prev.1,
            },
        )
    }
}

/// The (path, value) records that `text` holds as a snapshot.
pub open spec fn snapshot_records(text: Seq<char>) -> Seq<(Seq<char>, Seq<char>)> {
    parse_lines(lines_of(text)).1
}

/// The point that a parsed record stands for: readable, identity extractor.
pub open spec fn record_point(r: (Seq<char>, Seq<char>)) -> ConfigView {
    ConfigView {
        node: r.0,
        value: Some(r.1),
        permission: Permission { readable: true, writable: false },
        handler: Extractor::Identity,
    }
}

/// The (path, value) pairs of the points of `ps` that hold a value, in order.
pub open spec fn present_records(ps: Seq<ConfigView>) -> Seq<(Seq<char>, Seq<char>)>
    decreases ps.len(),
{
    if ps.len() == 0 {
        Seq::empty()
    } else {
        let prev = present_records(ps.drop_last());
        match ps.last().value {
            Some(v) => prev.push((ps.last().node, v)),
            None => prev,
        }
    }
}

/// A path that its `+ ` line carries through a snapshot unchanged.
pub open spec fn representable_node(n: Seq<char>) -> bool {
    &&& n.len() > 0
    &&& !contains_char(n, '\n')
    &&& !is_ws(n.last())
}

/// A value that its line carries through a snapshot unchanged.
pub open spec fn representable_value(v: Seq<char>) -> bool {
    &&& v.len() > 0
    &&& !contains_char(v, '\n')
    &&& !is_ws(v[0])
    &&& !is_ws(v.last())
    &&& !is_banner(v)
    &&& !starts_with(v, plus_prefix())
    &&& !is_diagnostic(v)
}

/// A point whose block a snapshot scans as intended: one it carries
/// unchanged, or one without a value whose path holds no break.
pub open spec fn block_ok(p: ConfigView) -> bool {
    representable(p) || (p.value is None && !contains_char(p.node, '\n'))
}

pub open spec fn representable(p: ConfigView) -> bool {
    &&& representable_node(p.node)
    &&& (p.value matches Some(v) ==> representable_value(v))
}

/// The exec form of the scan's phase.
pub enum ParseState {
    BeforeBanner,
    AwaitingRecord,
    AwaitingValue(String),
    Finished,
}

impl View for ParseState {
    type V = ParsePhase;

    open spec fn view(&self) -> ParsePhase {
        match self {
            ParseState::BeforeBanner => ParsePhase::BeforeBanner,
            ParseState::AwaitingRecord => ParsePhase::AwaitingRecord,
            ParseState::AwaitingValue(p) => ParsePhase::AwaitingValue(p@),
            ParseState::Finished => ParsePhase::Finished,
        }
    }
}

proof fn lemma_literals()
    ensures
        "----------"@ == dashes(10),
        "--------------"@ == banner(),
        "+ "@ == plus_prefix(),
        "ERROR:"@ == error_tag(),
        "WARNING:"@ == warning_tag(),
        "\n"@ == seq!['\n'],
{
    reveal_strlit("----------");
    reveal_strlit("--------------");
    reveal_strlit("+ ");
    reveal_strlit("ERROR:");
    reveal_strlit("WARNING:");
    reveal_strlit("\n");
    assert("----------"@ =~= dashes(10));
    assert("--------------"@ =~= banner());
    assert("+ "@ =~= plus_prefix());
    assert("ERROR:"@ =~= error_tag());
    assert("WARNING:"@ =~= warning_tag());
    assert("\n"@ =~= seq!['\n']);
}

/// One transition of the snapshot scan on `line`, which is trimmed first:
/// banners open and close the records, blank lines are skipped, `+ <path>`
/// opens a record, and the next line completes it unless it is a diagnostic.
pub fn parse_step(state: ParseState, line: &str) -> (r: (ParseState, Option<Config>))
    ensures
        r.0@ == step(state@, trim(line@)).0,
        step(state@, trim(line@)).1 matches Some(rec) ==> (r.1 matches Some(c) && c@
            == record_point(rec)),
        step(state@, trim(line@)).1 is None ==> r.1 is None,
{
    proof {
        lemma_literals();
    }
    let chars = to_chars(line);
    let (a, b) = trim_bounds(&chars, 0, chars.len());
    assert(chars@.subrange(0, chars@.len() as int) =~= line@);
    let ghost l = trim(line@);
    assert(chars@.subrange(a as int, b as int) == l);
    match state {
        ParseState::Finished => (ParseState::Finished, None),
        ParseState::BeforeBanner => {
            if starts_with_at(&chars, a, b, "----------") {
                (ParseState::AwaitingRecord, None)
            } else {
                (ParseState::BeforeBanner, None)
            }
        },
        other => {
            if starts_with_at(&chars, a, b, "----------") {
                (ParseState::Finished, None)
            } else if a == b {
                (other, None)
            } else if starts_with_at(&chars, a, b, "+ ") {
                let path = slice_string(line, a + 2, b);
                assert(path@ =~= l.skip(2));
                (ParseState::AwaitingValue(path), None)
            } else {
                match other {
                    ParseState::AwaitingValue(path) => {
                        if starts_with_at(&chars, a, b, "ERROR:") || starts_with_at(
                            &chars,
                            a,
                            b,
                            "WARNING:",
                        ) {
                            (ParseState::AwaitingRecord, None)
                        } else {
                            let value = slice_string(line, a, b);
                            let c = Config {
                                node: path,
                                value: Some(value),
                                permission: Permission::read(),
                                handler: Extractor::Identity,
                            };
                            (ParseState::AwaitingRecord, Some(c))
                        }
                    },
                    _ => (other, None),
                }
            }
        },
    }
}

#[verifier::rlimit(50)]
/// The snapshot of `points`: a banner line, the record of each point
/// followed by a break, and a closing banner line.
pub fn serialize(points: &Vec<Config>) -> (r: String)
    ensures
        r@ == snapshot_text(views(points@)),
{
    proof {
        lemma_literals();
    }
    let ghost ps = views(points@);
    let mut s = String::from_str("--------------");
    s.append("\n");
    assert(s@ =~= join_lines(seq![banner()] + block_lines(ps.take(0)))) by {
        assert(block_lines(ps.take(0)) =~= Seq::<Seq<char>>::empty());
        assert(seq![banner()] + Seq::<Seq<char>>::empty() =~= seq![banner()]);
        assert(seq![banner()].drop_last() =~= Seq::<Seq<char>>::empty());
        assert(join_lines(seq![banner()]) == join_lines(Seq::<Seq<char>>::empty()) + banner()
            + seq!['\n']);
        assert(join_lines(Seq::<Seq<char>>::empty()) + banner() =~= banner());
    }
    let mut i: usize = 0;
    while i < points.len()
        invariant
            i <= points.len(),
            ps == views(points@),
            s@ == join_lines(seq![banner()] + block_lines(ps.take(i as int))),
        decreases points.len() - i,
    {
        proof {
            lemma_literals();
        }
        let block = points[i].to_text();
        s.append(block.as_str());
        s.append("\n");
        proof {
            let p = ps[i as int];
            let front = seq![banner()] + block_lines(ps.take(i as int));
            let a = plus_prefix() + p.node;
            let b = value_line(p);
            assert(ps.take(i + 1).drop_last() =~= ps.take(i as int));
            let next = seq![banner()] + block_lines(ps.take(i + 1));
            assert(next =~= front.push(a).push(b));
            assert(next.drop_last() =~= front.push(a));
            assert(front.push(a).drop_last() =~= front);
            assert(join_lines(front.push(a)) == join_lines(front) + a + seq!['\n']);
            assert(join_lines(next) == join_lines(front.push(a)) + b + seq!['\n']);
            assert(block@ == a + seq!['\n'] + b);
            assert(s@ =~= join_lines(front) + a + seq!['\n'] + b + seq!['\n']);
        }
        i = i + 1;
    }
    s.append("--------------");
    s.append("\n");
    proof {
        assert(ps.take(ps.len() as int) =~= ps);
        let front = seq![banner()] + block_lines(ps);
        assert(snapshot_lines(ps) =~= front.push(banner()));
        assert(front.push(banner()).drop_last() =~= front);
        assert(join_lines(front.push(banner())) == join_lines(front) + banner() + seq!['\n']);
    }
    s
}

/// The records of the snapshot in `text`, in order. Lines before the first
/// banner and after the second are ignored; a record whose value line is a
/// diagnostic, or that the text ends before completing, is dropped.
pub fn parse(text: &str) -> (r: Vec<Config>)
    ensures
        r@.len() == snapshot_records(text@).len(),
        forall|i: int| 0 <= i < r@.len() ==> #[trigger] r@[i]@ == record_point(snapshot_records(text@)[i]),
{
    let chars = to_chars(text);
    let mut state = ParseState::BeforeBanner;
    let mut out: Vec<Config> = Vec::new();
    let mut start: usize = 0;
    let mut i: usize = 0;
    let ghost mut done: Seq<Seq<char>> = Seq::empty();
    assert(text@.take(0) =~= Seq::<char>::empty());
    assert(seq![text@.subrange(0, 0)] =~= done.push(text@.subrange(0, 0)));
    while i < chars.len()
        invariant
            chars@ == text@,
            start <= i <= chars.len(),
            lines_of(text@.take(i as int)) == done.push(text@.subrange(start as int, i as int)),
            state@ == parse_lines(done).0,
            out@.len() == parse_lines(done).1.len(),
            forall|j: int| 0 <= j < out@.len() ==> #[trigger] out@[j]@ == record_point(parse_lines(done).1[j]),
        decreases chars.len() - i,
    {
        let ghost prefix = text@.take(i + 1);
        assert(prefix.drop_last() =~= text@.take(i as int));
        if chars[i] == '\n' {
            let line = slice_string(text, start, i);
            let (next, rec) = parse_step(state, line.as_str());
            state = next;
            proof {
                assert(done.push(line@).drop_last() =~= done);
            }
            match rec {
                Some(c) => {
                    out.push(c);
                },
                None => {},
            }
            proof {
                done = done.push(line@);
                assert(text@.subrange(i + 1, i + 1) =~= Seq::<char>::empty());
            }
            start = i + 1;
        } else {
            proof {
                let cur = text@.subrange(start as int, i as int);
                assert(cur.push(chars@[i as int]) =~= text@.subrange(start as int, i + 1));
                assert(done.push(cur).drop_last() =~= done);
            }
        }
        i = i + 1;
    }
    let line = slice_string(text, start, chars.len());
    let (_, rec) = parse_step(state, line.as_str());
    match rec {
        Some(c) => {
            out.push(c);
        },
        None => {},
    }
    proof {
        assert(text@.take(text@.len() as int) =~= text@);
        let all = done.push(line@);
        assert(all.drop_last() =~= done);
    }
    out
}

proof fn lemma_no_break_concat(a: Seq<char>, b: Seq<char>)
    requires
        !contains_char(a, '\n'),
        !contains_char(b, '\n'),
    ensures
        !contains_char(a + b, '\n'),
{
    assert forall|k: int| 0 <= k < (a + b).len() implies (a + b)[k] != '\n' by {
        if k < a.len() {
            assert((a + b)[k] == a[k]);
        } else {
            assert((a + b)[k] == b[k - a.len()]);
        }
    }
}

proof fn lemma_fixed_lines(k: nat)
    requires
        k >= 10,
    ensures
        !contains_char(plus_prefix(), '\n'),
        !contains_char(warning_prefix(), '\n'),
        !contains_char(dashes(k), '\n'),
        trim(dashes(k)) == dashes(k),
        is_banner(dashes(k)),
        trim(Seq::<char>::empty()) == Seq::<char>::empty(),
{
    assert(!is_ws('-'));
    lemma_trim_clean(dashes(k));
    assert(dashes(k).take(10) =~= dashes(10));
    lemma_trim_clean(Seq::<char>::empty());
    assert forall|i: int| 0 <= i < warning_prefix().len() implies warning_prefix()[i] != '\n' by {}
}

/// The lines that the points of a snapshot are written as hold no break.
proof fn lemma_block_lines_unbroken(ps: Seq<ConfigView>)
    requires
        forall|i: int| 0 <= i < ps.len() ==> block_ok(#[trigger] ps[i]),
    ensures
        block_lines(ps).len() == 2 * ps.len(),
        forall|j: int| 0 <= j < block_lines(ps).len() ==> !contains_char(#[trigger] block_lines(ps)[j], '\n'),
    decreases ps.len(),
{
    if ps.len() > 0 {
        let front = ps.drop_last();
        assert forall|i: int| 0 <= i < front.len() implies block_ok(#[trigger] front[i]) by {
            assert(front[i] == ps[i]);
        }
        lemma_block_lines_unbroken(front);
        let p = ps.last();
        assert(block_ok(ps[ps.len() - 1]));
        lemma_fixed_lines(10);
        lemma_no_break_concat(plus_prefix(), p.node);
        lemma_no_break_concat(warning_prefix(), p.node);
        let bl = block_lines(ps);
        assert forall|j: int| 0 <= j < bl.len() implies !contains_char(#[trigger] bl[j], '\n') by {
            if j < block_lines(front).len() {
                assert(bl[j] == block_lines(front)[j]);
            }
        }
    }
}

/// The two lines of a point without a value, whatever its path, leave a
/// scan that awaits a record awaiting one, and complete no record.
proof fn lemma_absent_block(n: Seq<char>)
    ensures
        step(ParsePhase::AwaitingRecord, trim(plus_prefix() + n)).1 is None,
        step(step(ParsePhase::AwaitingRecord, trim(plus_prefix() + n)).0, trim(warning_prefix() + n))
            == (ParsePhase::AwaitingRecord, None::<(Seq<char>, Seq<char>)>),
{
    let a = plus_prefix() + n;
    let w = warning_prefix() + n;
    assert(!is_ws(a[0]) && !is_ws(w[0]));
    assert(trim_start(a) == a);
    assert(trim_start(w) == w);
    lemma_trim_end_prefix(a);
    lemma_trim_end_prefix(w);
    let ta = trim(a);
    let tw = trim(w);
    assert(ta.len() >= 1);
    assert(ta[0] == '+');
    assert(!is_banner(ta)) by {
        if is_banner(ta) {
            assert(ta.take(10)[0] == dashes(10)[0]);
        }
    }
    assert(!is_ws(w[7]));
    assert(tw.len() >= 8);
    assert(tw[0] == 'W');
    assert(tw.take(8) =~= warning_tag());
    assert(!is_banner(tw)) by {
        if is_banner(tw) {
            assert(tw.take(10)[0] == dashes(10)[0]);
        }
    }
    assert(!starts_with(tw, plus_prefix())) by {
        if starts_with(tw, plus_prefix()) {
            assert(tw.take(2)[0] == plus_prefix()[0]);
        }
    }
    if ta.len() >= 2 {
        assert(ta[1] == ' ');
        assert(ta.len() != 2) by {
            if ta.len() == 2 {
                assert(!is_ws(ta.last()));
                assert(ta.last() == ta[1]);
            }
        }
        assert(ta.take(2) =~= plus_prefix());
    } else {
        assert(!starts_with(ta, plus_prefix()));
    }
}

/// The records a scan finds over lines without breaks have paths without
/// breaks, and so has the path of a record it awaits the value of.
proof fn lemma_parse_paths_unbroken(ls: Seq<Seq<char>>)
    requires
        forall|i: int| 0 <= i < ls.len() ==> !contains_char(#[trigger] ls[i], '\n'),
    ensures
        parse_lines(ls).0 matches ParsePhase::AwaitingValue(p) ==> !contains_char(p, '\n'),
        forall|m: int|
            0 <= m < parse_lines(ls).1.len() ==> !contains_char((#[trigger] parse_lines(ls).1[m]).0, '\n'),
    decreases ls.len(),
{
    if ls.len() > 0 {
        let front = ls.drop_last();
        assert forall|i: int| 0 <= i < front.len() implies !contains_char(#[trigger] front[i], '\n') by {
            assert(front[i] == ls[i]);
        }
        lemma_parse_paths_unbroken(front);
        let l = trim(ls.last());
        assert(!contains_char(ls[ls.len() - 1], '\n'));
        lemma_trim_keeps_out(ls.last(), '\n');
        if l.len() >= 2 {
            assert forall|q: int| 0 <= q < l.skip(2).len() implies l.skip(2)[q] != '\n' by {
                assert(l.skip(2)[q] == l[q + 2]);
                assert(!(0 <= q + 2 < l.len() && l[q + 2] == '\n'));
            }
        }
        let prev = parse_lines(front);
        let cur = parse_lines(ls);
        assert forall|m: int| 0 <= m < cur.1.len() implies !contains_char((#[trigger] cur.1[m]).0, '\n') by {
            if m < prev.1.len() {
                assert(cur.1[m] == prev.1[m]);
            }
        }
    }
}

#[verifier::rlimit(30)]
/// The scan of the text of `ps` between banners of `k >= 10` dashes, for
/// points whose blocks it scans as intended, finds the records of the points
/// that hold a value.
proof fn lemma_parse_snapshot(ps: Seq<ConfigView>, k: nat)
    requires
        k >= 10,
        forall|i: int| 0 <= i < ps.len() ==> block_ok(#[trigger] ps[i]),
    ensures
        snapshot_records(snapshot_text_with(ps, k)) == present_records(ps),
{
    lemma_fixed_lines(k);
    lemma_block_lines_unbroken(ps);
    let ls = snapshot_lines_with(ps, k);
    let x = seq![dashes(k)] + block_lines(ps);
    assert(ls =~= x.push(dashes(k)));
    assert forall|j: int| 0 <= j < ls.len() implies !contains_char(#[trigger] ls[j], '\n') by {
        if 1 <= j < ls.len() - 1 {
            assert(ls[j] == block_lines(ps)[j - 1]);
        }
    }
    lemma_lines_of_join(ls);
    lemma_parse_blocks(ps, k);
    let all = ls.push(Seq::<char>::empty());
    assert(lines_of(snapshot_text_with(ps, k)) == all);
    assert(all.drop_last() =~= ls);
    assert(ls.drop_last() =~= x);
    assert(ls.last() == dashes(k));
    assert(parse_lines(ls) == (ParsePhase::Finished, present_records(ps)));
    assert(all.last() == Seq::<char>::empty());
    assert(parse_lines(all) == (ParsePhase::Finished, present_records(ps)));
}

/// A point whose read failed never comes back from its snapshot: no record
/// parsed from the text of `ps`, between banners of `k >= 10` dashes, has its
/// path, whatever that path holds, when the other points are ones their
/// lines carry unchanged and none of them shares that path.
pub proof fn lemma_absent_point_not_parsed(ps: Seq<ConfigView>, k: nat, j: int)
    requires
        k >= 10,
        0 <= j < ps.len(),
        ps[j].value is None,
        forall|i: int| 0 <= i < ps.len() && i != j ==> representable(#[trigger] ps[i]),
        forall|i: int| 0 <= i < ps.len() && i != j ==> (#[trigger] ps[i]).node != ps[j].node,
    ensures
        forall|m: int|
            0 <= m < snapshot_records(snapshot_text_with(ps, k)).len() ==> (
            #[trigger] snapshot_records(snapshot_text_with(ps, k))[m]).0 != ps[j].node,
{
    let recs = snapshot_records(snapshot_text_with(ps, k));
    if contains_char(ps[j].node, '\n') {
        let ls = lines_of(snapshot_text_with(ps, k));
        lemma_lines_of_unbroken(snapshot_text_with(ps, k));
        lemma_parse_paths_unbroken(ls);
    } else {
        assert forall|i: int| 0 <= i < ps.len() implies block_ok(#[trigger] ps[i]) by {
            if i != j {
                assert(representable(ps[i]));
            }
        }
        lemma_parse_snapshot(ps, k);
        lemma_present_records_origin(ps);
        assert forall|m: int| 0 <= m < recs.len() implies (#[trigger] recs[m]).0 != ps[j].node by {
            let i = choose|i: int|
                0 <= i < ps.len() && (#[trigger] ps[i]).value == Some(present_records(ps)[m].1)
                    && ps[i].node == present_records(ps)[m].0;
            assert(i != j);
        }
    }
}

/// Scanning the opening banner and the records of `ps` leaves the scan
/// awaiting a record, with the records of the points that hold a value.
proof fn lemma_parse_blocks(ps: Seq<ConfigView>, k: nat)
    requires
        k >= 10,
        forall|i: int| 0 <= i < ps.len() ==> block_ok(#[trigger] ps[i]),
    ensures
        parse_lines(seq![dashes(k)] + block_lines(ps)) == (
            ParsePhase::AwaitingRecord,
            present_records(ps),
        ),
    decreases ps.len(),
{
    lemma_fixed_lines(k);
    if ps.len() == 0 {
        assert(seq![dashes(k)] + block_lines(ps) =~= seq![dashes(k)]);
        assert(seq![dashes(k)].drop_last() =~= Seq::<Seq<char>>::empty());
        assert(seq![dashes(k)].last() == dashes(k));
        assert(present_records(ps) =~= Seq::<(Seq<char>, Seq<char>)>::empty());
        assert(parse_lines(Seq::<Seq<char>>::empty()) == (
            ParsePhase::BeforeBanner,
            Seq::<(Seq<char>, Seq<char>)>::empty(),
        ));
        assert(step(ParsePhase::BeforeBanner, trim(dashes(k))) == (
            ParsePhase::AwaitingRecord,
            None::<(Seq<char>, Seq<char>)>,
        ));
        assert(parse_lines(seq![dashes(k)]) == (
            ParsePhase::AwaitingRecord,
            Seq::<(Seq<char>, Seq<char>)>::empty(),
        ));
    } else {
        let front = ps.drop_last();
        assert forall|i: int| 0 <= i < front.len() implies block_ok(#[trigger] front[i]) by {
            assert(front[i] == ps[i]);
        }
        lemma_parse_blocks(front, k);
        let p = ps.last();
        assert(block_ok(ps[ps.len() - 1]));
        let x = seq![dashes(k)] + block_lines(front);
        let a = plus_prefix() + p.node;
        let b = value_line(p);
        assert(seq![dashes(k)] + block_lines(ps) =~= x.push(a).push(b));
        assert(x.push(a).push(b).drop_last() =~= x.push(a));
        assert(x.push(a).drop_last() =~= x);
        if !representable(p) {
            lemma_absent_block(p.node);
            assert(x.push(a).last() == a);
            assert(x.push(a).push(b).last() == b);
            assert(parse_lines(x.push(a)).1 == present_records(front));
            assert(parse_lines(x.push(a).push(b)) == (
                ParsePhase::AwaitingRecord,
                present_records(front),
            ));
            return;
        }
        // the `+ ` line opens a record for the node
        lemma_trim_clean(a);
        assert(a[0] == '+');
        assert(!is_banner(a)) by {
            if is_banner(a) {
                assert(a.take(10)[0] == dashes(10)[0]);
            }
        }
        assert(a.take(2) =~= plus_prefix());
        assert(a.skip(2) =~= p.node);
        assert(x.push(a).last() == a);
        assert(step(ParsePhase::AwaitingRecord, trim(a)) == (
            ParsePhase::AwaitingValue(p.node),
            None::<(Seq<char>, Seq<char>)>,
        ));
        assert(parse_lines(x.push(a)) == (ParsePhase::AwaitingValue(p.node), present_records(front)));
        assert(x.push(a).push(b).last() == b);
        // the next line completes it, or is a diagnostic that drops it
        match p.value {
            Some(v) => {
                lemma_trim_clean(v);
                assert(step(ParsePhase::AwaitingValue(p.node), trim(b)) == (
                    ParsePhase::AwaitingRecord,
                    Some((p.node, v)),
                ));
                assert(parse_lines(x.push(a).push(b)) == (
                    ParsePhase::AwaitingRecord,
                    present_records(front).push((p.node, v)),
                ));
            },
            None => {
                let w = warning_prefix() + p.node;
                assert(w[0] == 'W');
                lemma_trim_clean(w);
                assert(!is_banner(w)) by {
                    if is_banner(w) {
                        assert(w.take(10)[0] == dashes(10)[0]);
                    }
                }
                assert(!starts_with(w, plus_prefix())) by {
                    if starts_with(w, plus_prefix()) {
                        assert(w.take(2)[0] == plus_prefix()[0]);
                    }
                }
                assert(w.take(8) =~= warning_tag());
                assert(step(ParsePhase::AwaitingValue(p.node), trim(b)) == (
                    ParsePhase::AwaitingRecord,
                    None::<(Seq<char>, Seq<char>)>,
                ));
                assert(parse_lines(x.push(a).push(b)) == (
                    ParsePhase::AwaitingRecord,
                    present_records(front),
                ));
            },
        }
    }
}

/// Parsing a snapshot of `ps` between banners of `k >= 10` dashes gives
/// back, in order, the path and value of exactly those points that hold a
/// value: a point whose read failed is written as a diagnostic and does not
/// come back. Paths and values must be ones that their lines carry unchanged.
pub proof fn lemma_snapshot_drops_absent(ps: Seq<ConfigView>, k: nat)
    requires
        k >= 10,
        forall|i: int| 0 <= i < ps.len() ==> representable(#[trigger] ps[i]),
    ensures
        snapshot_records(snapshot_text_with(ps, k)) == present_records(ps),
        forall|j: int, m: int|
            #![trigger ps[j], snapshot_records(snapshot_text_with(ps, k))[m]]
            0 <= j < ps.len() && ps[j].value is None && (forall|i: int|
                0 <= i < ps.len() && i != j ==> (#[trigger] ps[i]).node != ps[j].node) && 0 <= m
                < snapshot_records(snapshot_text_with(ps, k)).len() ==> snapshot_records(
                snapshot_text_with(ps, k),
            )[m].0 != ps[j].node,
{
    assert forall|i: int| 0 <= i < ps.len() implies block_ok(#[trigger] ps[i]) by {
        assert(representable(ps[i]));
    }
    lemma_parse_snapshot(ps, k);
    lemma_present_records_origin(ps);
}

/// Each record of the points that hold a value is the path and value of one of them.
proof fn lemma_present_records_origin(ps: Seq<ConfigView>)
    ensures
        forall|m: int|
            #![trigger present_records(ps)[m]]
            0 <= m < present_records(ps).len() ==> exists|i: int|
                0 <= i < ps.len() && (#[trigger] ps[i]).value == Some(present_records(ps)[m].1)
                    && ps[i].node == present_records(ps)[m].0,
    decreases ps.len(),
{
    if ps.len() > 0 {
        let front = ps.drop_last();
        lemma_present_records_origin(front);
        let prev = present_records(front);
        let cur = present_records(ps);
        assert forall|m: int| #![trigger cur[m]] 0 <= m < cur.len() implies exists|i: int|
            0 <= i < ps.len() && (#[trigger] ps[i]).value == Some(cur[m].1) && ps[i].node
                == cur[m].0 by {
            if m < prev.len() {
                assert(cur[m] == prev[m]);
                let i = choose|i: int|
                    0 <= i < front.len() && (#[trigger] front[i]).value == Some(prev[m].1)
                        && front[i].node == prev[m].0;
                assert(ps[i] == front[i]);
            } else {
                assert(ps[ps.len() - 1] == ps.last());
            }
        }
    }
}

/// The records of points that all hold a value.
pub open spec fn point_records(ps: Seq<ConfigView>) -> Seq<(Seq<char>, Seq<char>)> {
    ps.map_values(|p: ConfigView| (p.node, p.value->0))
}

proof fn lemma_all_present(ps: Seq<ConfigView>)
    requires
        forall|i: int| 0 <= i < ps.len() ==> (#[trigger] ps[i]).value is Some,
    ensures
        present_records(ps) == point_records(ps),
    decreases ps.len(),
{
    if ps.len() > 0 {
        let front = ps.drop_last();
        assert forall|i: int| 0 <= i < front.len() implies (#[trigger] front[i]).value is Some by {
            assert(front[i] == ps[i]);
        }
        lemma_all_present(front);
        assert(ps[ps.len() - 1].value is Some);
        assert(point_records(ps) =~= point_records(front).push(
            (ps.last().node, ps.last().value->0),
        ));
    }
}

/// Round trip: for points that all hold a value, parsing their snapshot,
/// between banners of `k >= 10` dashes, gives back the same (path, value)
/// pairs in the same order.
pub proof fn lemma_snapshot_round_trip(ps: Seq<ConfigView>, k: nat)
    requires
        k >= 10,
        forall|i: int| 0 <= i < ps.len() ==> (#[trigger] ps[i]).value is Some,
        forall|i: int| 0 <= i < ps.len() ==> representable(#[trigger] ps[i]),
    ensures
        snapshot_records(snapshot_text_with(ps, k)) == point_records(ps),
{
    lemma_snapshot_drops_absent(ps, k);
    lemma_all_present(ps);
}

} // verus!
