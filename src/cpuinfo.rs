//! Reading `/proc/cpuinfo`: the processor number, vendor, family and model
//! of each block of lines.
use vstd::prelude::*;

use crate::number::{parse_u32, parse_u32_spec};
use crate::text::{
    find_char, find_from, lemma_find_from_bounds, lines_of, slice_string, starts_with,
    starts_with_at, to_chars, trim, trim_bounds,
};

verus! {

/// What one block of `/proc/cpuinfo` says of a processor.
#[derive(Clone, Debug)]
pub struct ProcessorInfo {
    pub number: u32,
    pub vendor: String,
    pub family: String,
    pub model: String,
}

pub struct ProcessorView {
    pub number: u32,
    pub vendor: Seq<char>,
    pub family: Seq<char>,
    pub model: Seq<char>,
}

impl View for ProcessorInfo {
    type V = ProcessorView;

    open spec fn view(&self) -> ProcessorView {
        ProcessorView {
            number: self.number,
            vendor: self.vendor@,
            family: self.family@,
            model: self.model@,
        }
    }
}

/// The fields seen so far, and whether a processor line opened a block
/// that is not yet emitted.
pub struct CpuInfoPhase {
    pub current: ProcessorView,
    pub found: bool,
}

/// The exec form of the scan's state.
pub struct CpuInfoScan {
    pub current: ProcessorInfo,
    pub found: bool,
}

impl View for CpuInfoScan {
    type V = CpuInfoPhase;

    open spec fn view(&self) -> CpuInfoPhase {
        CpuInfoPhase { current: self.current@, found: self.found }
    }
}

/// The text between the first and the second `:` of `l` (or its end),
/// trimmed; none without a `:`.
pub open spec fn field_value(l: Seq<char>) -> Option<Seq<char>> {
    let c = find_from(l, ':', 0);
    if c < l.len() {
        Some(trim(l.subrange(c + 1, find_from(l, ':', c + 1))))
    } else {
        None
    }
}

pub open spec fn vendor_key() -> Seq<char> {
    "vendor_id\t"@
}

pub open spec fn processor_key() -> Seq<char> {
    "processor\t"@
}

pub open spec fn family_key() -> Seq<char> {
    "cpu family\t"@
}

pub open spec fn model_key() -> Seq<char> {
    "model\t"@
}

/// The fields after one trimmed line. A processor line whose number does
/// not read as one is ignored.
pub open spec fn cpuinfo_fields(st: CpuInfoPhase, l: Seq<char>) -> CpuInfoPhase {
    if starts_with(l, vendor_key()) {
        match field_value(l) {
            Some(v) => CpuInfoPhase { current: ProcessorView { vendor: v, ..st.current }, ..st },
            None => st,
        }
    } else if starts_with(l, processor_key()) {
        match field_value(l) {
            Some(v) => match parse_u32_spec(v) {
                Some(n) => CpuInfoPhase {
                    current: ProcessorView { number: n, ..st.current },
                    found: true,
                },
                None => st,
            },
            None => st,
        }
    } else if starts_with(l, family_key()) {
        match field_value(l) {
            Some(v) => CpuInfoPhase { current: ProcessorView { family: v, ..st.current }, ..st },
            None => st,
        }
    } else if starts_with(l, model_key()) {
        match field_value(l) {
            Some(v) => CpuInfoPhase { current: ProcessorView { model: v, ..st.current }, ..st },
            None => st,
        }
    } else {
        st
    }
}

/// One line of the scan: update the fields, and at a blank line emit the
/// processor of an open block.
pub open spec fn cpuinfo_step(st: CpuInfoPhase, l: Seq<char>) -> (CpuInfoPhase, Option<ProcessorView>) {
    let next = cpuinfo_fields(st, l);
    if l.len() == 0 && next.found {
        (CpuInfoPhase { found: false, ..next }, Some(next.current))
    } else {
        (next, None)
    }
}

pub open spec fn cpuinfo_start() -> CpuInfoPhase {
    CpuInfoPhase {
        current: ProcessorView {
            number: 0,
            vendor: Seq::empty(),
            family: Seq::empty(),
            model: Seq::empty(),
        },
        found: false,
    }
}

/// The scan over `ls`, each line trimmed: the state after it and the processors emitted.
pub open spec fn cpuinfo_lines(ls: Seq<Seq<char>>) -> (CpuInfoPhase, Seq<ProcessorView>)
    decreases ls.len(),
{
    if ls.len() == 0 {
        (cpuinfo_start(), Seq::empty())
    } else {
        let prev = cpuinfo_lines(ls.drop_last());
        let next = cpuinfo_step(prev.0, trim(ls.last()));
        (
            next.0,
            match next.1 {
                Some(p) => prev.1.push(p),
                None => prev.1,
            },
        )
    }
}

/// The processors of `text`: one per block, and one for a block still open at the end.
pub open spec fn cpuinfo_records(text: Seq<char>) -> Seq<ProcessorView> {
    let r = cpuinfo_lines(lines_of(text));
    if r.0.found {
        r.1.push(r.0.current)
    } else {
        r.1
    }
}

fn field_of(chars: &Vec<char>, a: usize, b: usize, line: &str) -> (r: Option<String>)
    requires
        a <= b <= chars.len(),
        chars@ == line@,
    ensures
        match field_value(chars@.subrange(a as int, b as int)) {
            Some(v) => r matches Some(s) && s@ == v,
            None => r is None,
        },
{
    let ghost l = chars@.subrange(a as int, b as int);
    let sub = slice_string(line, a, b);
    let sc = to_chars(sub.as_str());
    assert(sc@ == l);
    let c = find_char(&sc, ':', 0);
    proof {
        lemma_find_from_bounds(sc@, ':', 0);
    }
    if c < sc.len() {
        let e = find_char(&sc, ':', c + 1);
        proof {
            lemma_find_from_bounds(sc@, ':', c + 1);
        }
        let (x, y) = trim_bounds(&sc, c + 1, e);
        Some(slice_string(sub.as_str(), x, y))
    } else {
        None
    }
}

fn clone_info(p: &ProcessorInfo) -> (r: ProcessorInfo)
    ensures
        r@ == p@,
{
    ProcessorInfo {
        number: p.number,
        vendor: p.vendor.clone(),
        family: p.family.clone(),
        model: p.model.clone(),
    }
}

/// One line of the `/proc/cpuinfo` scan on `line`, trimmed first.
pub fn cpuinfo_step_exec(state: CpuInfoScan, line: &str) -> (r: (CpuInfoScan, Option<ProcessorInfo>))
    ensures
        r.0@ == cpuinfo_step(state@, trim(line@)).0,
        match cpuinfo_step(state@, trim(line@)).1 {
            Some(p) => r.1 matches Some(q) && q@ == p,
            None => r.1 is None,
        },
{
    let chars = to_chars(line);
    let (a, b) = trim_bounds(&chars, 0, chars.len());
    assert(chars@.subrange(0, chars@.len() as int) =~= line@);
    let mut st = state;
    if starts_with_at(&chars, a, b, "vendor_id\t") {
        if let Some(v) = field_of(&chars, a, b, line) {
            st.current.vendor = v;
        }
    } else if starts_with_at(&chars, a, b, "processor\t") {
        if let Some(v) = field_of(&chars, a, b, line) {
            if let Some(n) = parse_u32(v.as_str()) {
                st.current.number = n;
                st.found = true;
            }
        }
    } else if starts_with_at(&chars, a, b, "cpu family\t") {
        if let Some(v) = field_of(&chars, a, b, line) {
            st.current.family = v;
        }
    } else if starts_with_at(&chars, a, b, "model\t") {
        if let Some(v) = field_of(&chars, a, b, line) {
            st.current.model = v;
        }
    }
    if a == b && st.found {
        let p = clone_info(&st.current);
        st.found = false;
        (st, Some(p))
    } else {
        (st, None)
    }
}

/// The processors that `/proc/cpuinfo` text describes, in order: a block
/// ends at a blank line after a `processor` line, or at the end of the text.
pub fn parse_cpuinfo(text: &str) -> (r: Vec<ProcessorInfo>)
    ensures
        r@.len() == cpuinfo_records(text@).len(),
        forall|i: int| 0 <= i < r@.len() ==> #[trigger] r@[i]@ == cpuinfo_records(text@)[i],
{
    let chars = to_chars(text);
    let mut state = CpuInfoScan {
        current: ProcessorInfo { number: 0, vendor: String::new(), family: String::new(), model: String::new() },
        found: false,
    };
    assert(state@.current.vendor =~= Seq::<char>::empty());
    let mut out: Vec<ProcessorInfo> = Vec::new();
    let mut start: usize = 0;
    let mut i: usize = 0;
    let ghost mut done: Seq<Seq<char>> = Seq::empty();
    assert(text@.take(0) =~= Seq::<char>::empty());
    assert(seq![text@.subrange(0, 0)] =~= done.push(text@.subrange(0, 0)));
    while i < chars.len()
        invariant
            chars@ == text@,
            start <= i <= chars.len(),
            lines_of(text@.take(i as int)) == done.push(text@.subrange(start as int, i as int)),
            state@ == cpuinfo_lines(done).0,
            out@.len() == cpuinfo_lines(done).1.len(),
            forall|j: int| 0 <= j < out@.len() ==> #[trigger] out@[j]@ == cpuinfo_lines(done).1[j],
        decreases chars.len() - i,
    {
        let ghost prefix = text@.take(i + 1);
        assert(prefix.drop_last() =~= text@.take(i as int));
        if chars[i] == '\n' {
            let line = slice_string(text, start, i);
            let (next, rec) = cpuinfo_step_exec(state, line.as_str());
            state = next;
            proof {
                assert(done.push(line@).drop_last() =~= done);
            }
            match rec {
                Some(p) => {
                    out.push(p);
                },
                None => {},
            }
            proof {
                done = done.push(line@);
                assert(text@.subrange(i + 1, i + 1) =~= Seq::<char>::empty());
            }
            start = i + 1;
        } else {
            proof {
                let cur = text@.subrange(start as int, i as int);
                assert(cur.push(chars@[i as int]) =~= text@.subrange(start as int, i + 1));
                assert(done.push(cur).drop_last() =~= done);
            }
        }
        i = i + 1;
    }
    let line = slice_string(text, start, chars.len());
    let (last, rec) = cpuinfo_step_exec(state, line.as_str());
    match rec {
        Some(p) => {
            out.push(p);
        },
        None => {},
    }
    proof {
        assert(text@.take(text@.len() as int) =~= text@);
        let all = done.push(line@);
        assert(all.drop_last() =~= done);
    }
    if last.found {
        out.push(clone_info(&last.current));
    }
    out
}

} // verus!
