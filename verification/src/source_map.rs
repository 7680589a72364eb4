//! The map from generated Slang lines back to the Rust kernel and source
//! construct they were generated from, and its JSON form.
use vstd::prelude::*;
use crate::slang::{marker_kernel, marker_kernel_at};
use crate::text::{
    chars_of, contains_at, contains_seq, decimal, ends_with_at, equals_at, has_prefix, has_suffix,
    line_bounds, lines, push_char, push_decimal, starts_with_at, string_of, trim, trim_bounds,
};

verus! {

/// One generated Slang line attributed to a Rust construct.
#[derive(Clone, Debug)]
pub struct SourceMapSegment {
    pub start_line: usize,
    pub end_line: usize,
    pub kernel: String,
    pub construct: &'static str,
    pub ordinal: usize,
}

/// The mathematical value of a [`SourceMapSegment`].
pub struct SegmentModel {
    pub start_line: int,
    pub end_line: int,
    pub kernel: Seq<char>,
    pub construct: Seq<char>,
    pub ordinal: int,
}

impl SourceMapSegment {
    pub open spec fn model(&self) -> SegmentModel {
        SegmentModel {
            start_line: self.start_line as int,
            end_line: self.end_line as int,
            kernel: self.kernel@,
            construct: self.construct@,
            ordinal: self.ordinal as int,
        }
    }
}

pub open spec fn segment_models(segments: Seq<SourceMapSegment>) -> Seq<SegmentModel> {
    Seq::new(segments.len(), |i: int| segments[i].model())
}

/// The kind of Rust construct a trimmed generated Slang line stands for.
pub open spec fn construct_of(t: Seq<char>) -> Option<Seq<char>> {
    if has_prefix(t, "// @gust construct: match #"@) {
        Some("match"@)
    } else if has_prefix(t, "var "@) || has_prefix(t, "uint "@) || has_prefix(t, "int "@) {
        Some("local"@)
    } else if has_prefix(t, "if ("@) {
        Some("conditional"@)
    } else if has_prefix(t, "for ("@) {
        Some("loop"@)
    } else if has_prefix(t, "return "@) {
        Some("return"@)
    } else if contains_seq(t, "="@) && !contains_seq(t, "=="@) && !contains_seq(t, ">="@)
        && !contains_seq(t, "<="@) {
        Some("assignment"@)
    } else if has_suffix(t, ";"@) && !has_prefix(t, "//"@) && t != ";"@ {
        Some("expression"@)
    } else {
        None
    }
}

/// The Slang statement forms each stand for one Rust construct, whatever
/// follows their opening words: a declaration of a `var`, `uint` or `int`
/// local is a Rust local, `if (` a conditional, `for (` a loop and
/// `return ` a return.
pub proof fn lemma_statement_constructs(t: Seq<char>)
    ensures
        has_prefix(t, "var "@) ==> construct_of(t) == Some("local"@),
        has_prefix(t, "uint "@) ==> construct_of(t) == Some("local"@),
        has_prefix(t, "int "@) ==> construct_of(t) == Some("local"@),
        has_prefix(t, "if ("@) ==> construct_of(t) == Some("conditional"@),
        has_prefix(t, "for ("@) ==> construct_of(t) == Some("loop"@),
        has_prefix(t, "return "@) ==> construct_of(t) == Some("return"@),
{
    reveal_strlit("// @gust construct: match #");
    reveal_strlit("var ");
    reveal_strlit("uint ");
    reveal_strlit("int ");
    reveal_strlit("if (");
    reveal_strlit("for (");
    reveal_strlit("return ");
    let m = "// @gust construct: match #"@;
    if t.len() > 1 {
        assert(has_prefix(t, m) ==> t[0] == '/') by {
            if has_prefix(t, m) {
                assert(t.subrange(0, m.len() as int)[0] == t[0]);
            }
        }
        assert(has_prefix(t, "var "@) ==> t[0] == 'v') by {
            if has_prefix(t, "var "@) {
                assert(t.subrange(0, 4)[0] == t[0]);
            }
        }
        assert(has_prefix(t, "uint "@) ==> t[0] == 'u') by {
            if has_prefix(t, "uint "@) {
                assert(t.subrange(0, 5)[0] == t[0]);
            }
        }
        assert(has_prefix(t, "int "@) ==> t[0] == 'i' && t[1] == 'n') by {
            if has_prefix(t, "int "@) {
                assert(t.subrange(0, 4)[0] == t[0]);
                assert(t.subrange(0, 4)[1] == t[1]);
            }
        }
        assert(has_prefix(t, "if ("@) ==> t[0] == 'i' && t[1] == 'f') by {
            if has_prefix(t, "if ("@) {
                assert(t.subrange(0, 4)[0] == t[0]);
                assert(t.subrange(0, 4)[1] == t[1]);
            }
        }
        assert(has_prefix(t, "for ("@) ==> t[0] == 'f') by {
            if has_prefix(t, "for ("@) {
                assert(t.subrange(0, 5)[0] == t[0]);
            }
        }
        assert(has_prefix(t, "return "@) ==> t[0] == 'r') by {
            if has_prefix(t, "return "@) {
                assert(t.subrange(0, 7)[0] == t[0]);
            }
        }
    }
}

/// After the first `n` lines: the segments found, the kernel the last
/// marker named, and the ordinal of the next construct in that kernel.
pub open spec fn map_state(ls: Seq<Seq<char>>, n: int) -> (Seq<SegmentModel>, Option<Seq<char>>, int)
    decreases n,
{
    if n <= 0 || n > ls.len() {
        (Seq::empty(), None, 0)
    } else {
        let (segments, kernel, ordinal) = map_state(ls, n - 1);
        let line = ls[n - 1];
        match marker_kernel(line) {
            Some(k) => (segments, k, 0),
            None => match kernel {
                None => (segments, kernel, ordinal),
                Some(k) => match construct_of(trim(line)) {
                    None => (segments, kernel, ordinal),
                    Some(c) => (
                        segments.push(
                            SegmentModel { start_line: n, end_line: n, kernel: k, construct: c, ordinal },
                        ),
                        kernel,
                        ordinal + 1,
                    ),
                },
            },
        }
    }
}

/// The segments of a generated Slang source: every construct line after a
/// `// @rust kernel: ` marker that names a kernel, numbered within it.
pub open spec fn spec_segments(source: Seq<char>) -> Seq<SegmentModel> {
    map_state(lines(source), lines(source).len() as int).0
}

/// `"` and `\` escaped with a backslash.
pub open spec fn json_escaped(value: Seq<char>) -> Seq<char>
    decreases value.len(),
{
    if value.len() == 0 {
        Seq::empty()
    } else {
        let c = value.last();
        json_escaped(value.drop_last()) + if c == '\\' || c == '"' {
            seq!['\\', c]
        } else {
            seq![c]
        }
    }
}

/// The JSON object of one segment, after its separator.
pub open spec fn segment_json(s: SegmentModel) -> Seq<char> {
    "\n    {\"slang_start\":"@ + decimal(s.start_line as nat) + ",\"slang_end\":"@ + decimal(
        s.end_line as nat,
    ) + ",\"kernel\":\""@ + json_escaped(s.kernel) + "\",\"construct\":\""@ + s.construct
        + "\",\"ordinal\":"@ + decimal(s.ordinal as nat) + "}"@
}

/// The JSON objects of `segments[..n]`, comma-separated.
pub open spec fn segments_json(segments: Seq<SegmentModel>, n: int) -> Seq<char>
    decreases n,
{
    if n <= 0 || n > segments.len() {
        Seq::empty()
    } else {
        segments_json(segments, n - 1) + (if n > 1 { ","@ } else { Seq::empty() }) + segment_json(
            segments[n - 1],
        )
    }
}

/// The JSON document of a source map.
pub open spec fn spec_json(segments: Seq<SegmentModel>) -> Seq<char> {
    "{\n  \"schema_version\": 1,\n  \"segments\": ["@ + segments_json(segments, segments.len() as int)
        + "\n  ]\n}\n"@
}

/// The last of `segments[..n]` that covers `line`.
pub open spec fn last_covering(segments: Seq<SegmentModel>, line: int, n: int) -> Option<int>
    decreases n,
{
    if n <= 0 || n > segments.len() {
        None
    } else if segments[n - 1].start_line <= line && line <= segments[n - 1].end_line {
        Some(n - 1)
    } else {
        last_covering(segments, line, n - 1)
    }
}

/// The last of `segments[..n]` that starts at or before `line`.
pub open spec fn last_starting(segments: Seq<SegmentModel>, line: int, n: int) -> Option<int>
    decreases n,
{
    if n <= 0 || n > segments.len() {
        None
    } else if segments[n - 1].start_line <= line {
        Some(n - 1)
    } else {
        last_starting(segments, line, n - 1)
    }
}

/// The segment a Slang line belongs to: the last one covering it, else the
/// last one starting before it.
pub open spec fn spec_origin(segments: Seq<SegmentModel>, line: int) -> Option<int> {
    match last_covering(segments, line, segments.len() as int) {
        Some(k) => Some(k),
        None => last_starting(segments, line, segments.len() as int),
    }
}

/// The map from generated Slang lines to Rust constructs.
pub struct SourceMap {
    segments: Vec<SourceMapSegment>,
}

impl SourceMap {
    pub closed spec fn view(&self) -> Seq<SegmentModel> {
        segment_models(self.segments@)
    }

    /// The segments, in source order.
    pub fn segments(&self) -> (r: &[SourceMapSegment])
        ensures
            segment_models(r@) == self.view(),
    {
        self.segments.as_slice()
    }
}

/// The construct kind of the line `v[lo..hi]`, already trimmed.
fn construct_kind_at(v: &[char], lo: usize, hi: usize) -> (r: Option<&'static str>)
    requires
        lo <= hi <= v@.len(),
    ensures
        match construct_of(v@.subrange(lo as int, hi as int)) {
            Some(c) => r matches Some(x) && x@ == c,
            None => r is None,
        },
{
    if starts_with_at(v, lo, hi, &chars_of("// @gust construct: match #")) {
        Some("match")
    } else if starts_with_at(v, lo, hi, &chars_of("var ")) || starts_with_at(v, lo, hi, &chars_of("uint "))
        || starts_with_at(v, lo, hi, &chars_of("int ")) {
        Some("local")
    } else if starts_with_at(v, lo, hi, &chars_of("if (")) {
        Some("conditional")
    } else if starts_with_at(v, lo, hi, &chars_of("for (")) {
        Some("loop")
    } else if starts_with_at(v, lo, hi, &chars_of("return ")) {
        Some("return")
    } else if contains_at(v, lo, hi, &chars_of("=")) && !contains_at(v, lo, hi, &chars_of("=="))
        && !contains_at(v, lo, hi, &chars_of(">=")) && !contains_at(v, lo, hi, &chars_of("<=")) {
        Some("assignment")
    } else if ends_with_at(v, lo, hi, &chars_of(";")) && !starts_with_at(v, lo, hi, &chars_of("//"))
        && !equals_at(v, lo, hi, &chars_of(";")) {
        Some("expression")
    } else {
        None
    }
}

/// The kind of Rust construct a trimmed generated Slang line stands for.
pub fn construct_kind(line: &str) -> (r: Option<&'static str>)
    ensures
        match construct_of(line@) {
            Some(c) => r matches Some(x) && x@ == c,
            None => r is None,
        },
{
    let v = chars_of(line);
    proof {
        assert(v@.subrange(0, v@.len() as int) =~= line@);
    }
    construct_kind_at(&v, 0, v.len())
}

/// `value` with `"` and `\` escaped by a backslash.
pub fn json_escape(value: &str) -> (r: String)
    ensures
        r@ == json_escaped(value@),
{
    let v = chars_of(value);
    let mut out = String::new();
    let mut i: usize = 0;
    while i < v.len()
        invariant
            v@ == value@,
            i <= v@.len(),
            out@ == json_escaped(v@.subrange(0, i as int)),
        decreases v@.len() - i,
    {
        let c = v[i];
        proof {
            assert(v@.subrange(0, i + 1).drop_last() =~= v@.subrange(0, i as int));
        }
        if c == '\\' || c == '"' {
            push_char(&mut out, '\\');
        }
        push_char(&mut out, c);
        proof {
            assert(out@ =~= json_escaped(v@.subrange(0, i + 1)));
        }
        i = i + 1;
    }
    proof {
        assert(v@.subrange(0, v@.len() as int) =~= v@);
    }
    out
}

/// Appends the JSON object of one segment, after its separator.
fn push_segment_json(out: &mut String, segment: &SourceMapSegment)
    ensures
        final(out)@ == old(out)@ + segment_json(segment.model()),
{
    out.append("\n    {\"slang_start\":");
    push_decimal(out, segment.start_line as u64);
    out.append(",\"slang_end\":");
    push_decimal(out, segment.end_line as u64);
    out.append(",\"kernel\":\"");
    let escaped = json_escape(segment.kernel.as_str());
    out.append(escaped.as_str());
    out.append("\",\"construct\":\"");
    out.append(segment.construct);
    out.append("\",\"ordinal\":");
    push_decimal(out, segment.ordinal as u64);
    out.append("}");
    proof {
        assert(final(out)@ =~= old(out)@ + segment_json(segment.model()));
    }
}

impl SourceMap {
    /// The map of a generated Slang source: every construct line after a
    /// `// @rust kernel: ` marker that names a kernel, numbered within it.
    pub fn from_slang(source: &str) -> (r: Self)
        ensures
            r.view() == spec_segments(source@),
    {
        let v = chars_of(source);
        let bounds = line_bounds(&v);
        let ghost ls = lines(v@);
        let mut segments: Vec<SourceMapSegment> = Vec::new();
        let mut kernel: Option<(usize, usize)> = None;
        let mut ordinal: usize = 0;
        let mut index: usize = 0;
        while index < bounds.len()
            invariant
                v@ == source@,
                ls == lines(v@),
                bounds@.len() == ls.len(),
                index <= bounds@.len(),
                forall|k: int| 0 <= k < bounds@.len() ==> (#[trigger] bounds@[k]).0 <= bounds@[k].1 <= v@.len(),
                forall|k: int| 0 <= k < bounds@.len() ==> #[trigger] v@.subrange(bounds@[k].0 as int, bounds@[k].1 as int) == ls[k],
                ordinal <= index,
                ({
                    let (segs, k, o) = map_state(ls, index as int);
                    &&& segment_models(segments@) == segs
                    &&& o == ordinal
                    &&& match kernel {
                        None => k is None,
                        Some((a, b)) => a <= b <= v@.len() && k == Some(v@.subrange(a as int, b as int)),
                    }
                }),
            decreases bounds@.len() - index,
        {
            let (lo, hi) = bounds[index];
            let line_number = index + 1;
            proof {
                assert(v@.subrange(bounds@[index as int].0 as int, bounds@[index as int].1 as int) == ls[index as int]);
            }
            match marker_kernel_at(&v, lo, hi) {
                Some(found) => {
                    kernel = found;
                    ordinal = 0;
                },
                None => {
                    if let Some((a, b)) = kernel {
                        let (tl, th) = trim_bounds(&v, lo, hi);
                        if let Some(construct) = construct_kind_at(&v, tl, th) {
                            let ghost before = segment_models(segments@);
                            let segment = SourceMapSegment {
                                start_line: line_number,
                                end_line: line_number,
                                kernel: string_of(&v, a, b),
                                construct,
                                ordinal,
                            };
                            segments.push(segment);
                            proof {
                                assert(segment_models(segments@) =~= before.push(segment.model()));
                            }
                            ordinal = ordinal + 1;
                        }
                    }
                },
            }
            index = index + 1;
        }
        proof {
            assert(lines(source@) == ls);
        }
        SourceMap { segments }
    }

    /// The segment a Slang line belongs to: the last one covering it, else
    /// the last one starting before it.
    pub fn origin_at(&self, line: usize) -> (r: Option<&SourceMapSegment>)
        ensures
            match spec_origin(self.view(), line as int) {
                Some(k) => r matches Some(s) && s.model() == self.view()[k],
                None => r is None,
            },
    {
        let ghost m = self.view();
        let mut n: usize = self.segments.len();
        while n > 0
            invariant
                m == segment_models(self.segments@),
                n <= self.segments@.len(),
                last_covering(m, line as int, m.len() as int) == last_covering(m, line as int, n as int),
            decreases n,
        {
            let segment = &self.segments[n - 1];
            if segment.start_line <= line && line <= segment.end_line {
                return Some(segment);
            }
            n = n - 1;
        }
        let mut n: usize = self.segments.len();
        while n > 0
            invariant
                m == segment_models(self.segments@),
                n <= self.segments@.len(),
                last_covering(m, line as int, m.len() as int) is None,
                last_starting(m, line as int, m.len() as int) == last_starting(m, line as int, n as int),
            decreases n,
        {
            let segment = &self.segments[n - 1];
            if segment.start_line <= line {
                return Some(segment);
            }
            n = n - 1;
        }
        None
    }

    /// The JSON document of this map.
    pub fn json(&self) -> (r: String)
        ensures
            r@ == spec_json(self.view()),
    {
        let ghost m = self.view();
        let mut out = String::new();
        out.append("{\n  \"schema_version\": 1,\n  \"segments\": [");
        let ghost head = out@;
        let mut i: usize = 0;
        proof {
            assert(out@ =~= head + segments_json(m, 0));
        }
        while i < self.segments.len()
            invariant
                m == segment_models(self.segments@),
                i <= self.segments@.len(),
                out@ == head + segments_json(m, i as int),
            decreases self.segments@.len() - i,
        {
            let ghost before = out@;
            if i != 0 {
                out.append(",");
            }
            push_segment_json(&mut out, &self.segments[i]);
            proof {
                assert(m[i as int] == self.segments@[i as int].model());
                assert(out@ =~= head + segments_json(m, i + 1));
            }
            i = i + 1;
        }
        out.append("\n  ]\n}\n");
        proof {
            assert(out@ =~= spec_json(m));
        }
        out
    }
}

} // verus!
