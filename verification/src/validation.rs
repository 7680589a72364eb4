//! The validation record that `verify` writes and `status` summarises: JSON
//! string quoting, the record's text, its one-line summary, UTC time stamps
//! and the SHA-256 digests of exported kernels.
use vstd::prelude::*;
use crate::text::{
    chars_of, decimal, digit_char, digit_char_exec, find_first, has_prefix, line_bounds, lines,
    push_char, push_decimal, split_once, starts_with_at, string_of, trim, trim_bounds, trim_start,
    trim_start_bounds, line_state, strip_cr, trim_end, is_space, first_occurrence,
    first_occurrence_from, occurs_at,
};
use crate::tooling::{
    join_all, join_strings, mode_name, path_texts, push_signed, signed_decimal, VerifyMode,
};

verus! {

/// The lower-case hexadecimal digit for `d < 16`.
pub open spec fn hex_digit(d: nat) -> char {
    if d < 10 {
        digit_char(d)
    } else {
        (('a' as nat) + (d - 10)) as char
    }
}

/// One character as it stands inside a JSON string.
pub open spec fn json_char(c: char) -> Seq<char> {
    if c == '"' {
        seq!['\\', '"']
    } else if c == '\\' {
        seq!['\\', '\\']
    } else if c == '\n' {
        seq!['\\', 'n']
    } else if c == '\r' {
        seq!['\\', 'r']
    } else if c == '\t' {
        seq!['\\', 't']
    } else if (c as u32) < 0x20 {
        seq!['\\', 'u', '0', '0', hex_digit(((c as u32) / 16) as nat), hex_digit(((c as u32) % 16) as nat)]
    } else {
        seq![c]
    }
}

/// The characters of `t`, each as it stands inside a JSON string.
pub open spec fn json_chars(t: Seq<char>) -> Seq<char>
    decreases t.len(),
{
    if t.len() == 0 {
        Seq::empty()
    } else {
        json_chars(t.drop_last()) + json_char(t.last())
    }
}

/// `t` as a JSON string literal.
pub open spec fn json_quoted(t: Seq<char>) -> Seq<char> {
    seq!['"'] + json_chars(t) + seq!['"']
}

/// The hexadecimal digit for `d`.
fn hex_digit_exec(d: u32) -> (c: char)
    requires
        d < 16,
    ensures
        c == hex_digit(d as nat),
{
    if d < 10 {
        digit_char_exec(d as u64)
    } else {
        match d {
            10 => 'a',
            11 => 'b',
            12 => 'c',
            13 => 'd',
            14 => 'e',
            _ => 'f',
        }
    }
}

/// Appends one character as it stands inside a JSON string.
fn push_json_char(out: &mut String, c: char)
    ensures
        final(out)@ == old(out)@ + json_char(c),
{
    if c == '"' {
        push_char(out, '\\');
        push_char(out, '"');
    } else if c == '\\' {
        push_char(out, '\\');
        push_char(out, '\\');
    } else if c == '\n' {
        push_char(out, '\\');
        push_char(out, 'n');
    } else if c == '\r' {
        push_char(out, '\\');
        push_char(out, 'r');
    } else if c == '\t' {
        push_char(out, '\\');
        push_char(out, 't');
    } else if (c as u32) < 32 {
        let code = c as u32;
        push_char(out, '\\');
        push_char(out, 'u');
        push_char(out, '0');
        push_char(out, '0');
        push_char(out, hex_digit_exec(code / 16));
        push_char(out, hex_digit_exec(code % 16));
    } else {
        push_char(out, c);
    }
    assert(final(out)@ =~= old(out)@ + json_char(c));
}

/// Appends `value` as a JSON string literal.
pub fn push_json_string(out: &mut String, value: &str)
    ensures
        final(out)@ == old(out)@ + json_quoted(value@),
{
    let v = chars_of(value);
    let ghost start = out@;
    push_char(out, '"');
    let mut i: usize = 0;
    while i < v.len()
        invariant
            i <= v@.len(),
            v@ == value@,
            out@ == start + seq!['"'] + json_chars(v@.subrange(0, i as int)),
        decreases v@.len() - i,
    {
        proof {
            assert(v@.subrange(0, i + 1).drop_last() =~= v@.subrange(0, i as int));
        }
        push_json_char(out, v[i]);
        proof {
            assert(out@ =~= start + seq!['"'] + json_chars(v@.subrange(0, i + 1)));
        }
        i = i + 1;
    }
    push_char(out, '"');
    proof {
        assert(v@.subrange(0, v@.len() as int) =~= v@);
        assert(out@ =~= start + json_quoted(value@));
    }
}

/// `value` as a JSON string literal: in double quotes, with quotes,
/// backslashes and control characters escaped.
pub fn json_string(value: &str) -> (r: String)
    ensures
        r@ == json_quoted(value@),
{
    let mut out = String::new();
    push_json_string(&mut out, value);
    proof {
        assert(out@ =~= json_quoted(value@));
    }
    out
}


/// What one command of a `verify` run printed and how it ended.
pub struct CheckRecord {
    pub program: String,
    pub arguments: Vec<String>,
    pub exit_code: Option<i32>,
    pub stdout: String,
    pub stderr: String,
}

/// An exported kernel that passed validation, with the SHA-256 digest of its
/// bytes in hexadecimal.
pub struct ArtifactRecord {
    pub file: String,
    pub sha256: String,
}

/// The JSON string literals of `items`.
pub open spec fn quoted_items(items: Seq<Seq<char>>) -> Seq<Seq<char>> {
    Seq::new(items.len(), |i: int| json_quoted(items[i]))
}

/// The exit code line of a check.
pub open spec fn exit_code_json(code: Option<i32>) -> Seq<char> {
    match code {
        Some(c) => "      \"exit_code\": "@ + signed_decimal(c as int) + ",\n"@,
        None => "      \"exit_code\": null,\n"@,
    }
}

/// The JSON object of one check.
pub open spec fn check_json(c: CheckRecord) -> Seq<char> {
    "    {\n"@ + "      \"program\": "@ + json_quoted(c.program@) + ",\n"@ + "      \"arguments\": ["@
        + join_all(quoted_items(path_texts(c.arguments@)), ", "@) + "],\n"@ + exit_code_json(c.exit_code)
        + "      \"stdout\": "@ + json_quoted(c.stdout@) + ",\n"@ + "      \"stderr\": "@ + json_quoted(
        c.stderr@,
    ) + "\n"@ + "    }"@
}

/// The JSON object of one validated kernel.
pub open spec fn artifact_json(a: ArtifactRecord) -> Seq<char> {
    "    {\n"@ + "      \"file\": "@ + json_quoted(a.file@) + ",\n"@ + "      \"sha256\": "@ + json_quoted(a.sha256@)
        + ",\n"@ + "      \"validation_target\": \"vulkan1.2\",\n"@ + "      \"status\": \"passed\"\n"@
        + "    }"@
}

pub open spec fn checks_json(checks: Seq<CheckRecord>) -> Seq<Seq<char>> {
    Seq::new(checks.len(), |i: int| check_json(checks[i]))
}

pub open spec fn artifacts_json(artifacts: Seq<ArtifactRecord>) -> Seq<Seq<char>> {
    Seq::new(artifacts.len(), |i: int| artifact_json(artifacts[i]))
}

/// The failure line: the error, or `null` for a run that passed.
pub open spec fn failure_json(failure: Option<Seq<char>>) -> Seq<char> {
    match failure {
        Some(e) => "  \"failure\": "@ + json_quoted(e) + ",\n"@,
        None => "  \"failure\": null,\n"@,
    }
}

/// The text of the validation record of a `verify` run.
pub open spec fn spec_validation_json(
    mode: VerifyMode,
    started: Seq<char>,
    finished: Seq<char>,
    failure: Option<Seq<char>>,
    checks: Seq<CheckRecord>,
    artifacts: Seq<ArtifactRecord>,
) -> Seq<char> {
    "{\n"@ + "  \"schema_version\": 1,\n"@ + "  \"started_utc\": "@ + json_quoted(started) + ",\n"@
        + "  \"finished_utc\": "@ + json_quoted(finished) + ",\n"@ + "  \"mode\": "@ + json_quoted(
        mode_name(mode),
    ) + ",\n"@ + "  \"passed\": "@ + (if failure is None {
        "true"@
    } else {
        "false"@
    }) + ",\n"@ + failure_json(failure)
        + "  \"scope\": \"Debug native Vulkan wgpu execution of Slang-generated WGSL; SPIR-V export validation is separate.\",\n"@
        + "  \"untested\": [\"browser WebGPU\", \"Metal\", \"DXIL\", \"other GPU vendors\", \"declared minimum Rust version\"],\n"@
        + "  \"checks\": [\n"@ + join_all(checks_json(checks), ",\n"@) + "\n  ],\n"@ + "  \"spirv_artifacts\": [\n"@
        + join_all(artifacts_json(artifacts), ",\n"@) + "\n  ]\n}\n"@
}

/// The JSON string literals of `items`, one string each.
fn quote_all(items: &[String]) -> (r: Vec<String>)
    ensures
        path_texts(r@) == quoted_items(path_texts(items@)),
{
    let mut r: Vec<String> = Vec::new();
    let mut i: usize = 0;
    while i < items.len()
        invariant
            i <= items@.len(),
            path_texts(r@) == quoted_items(path_texts(items@)).subrange(0, i as int),
        decreases items@.len() - i,
    {
        let q = json_string(items[i].as_str());
        let ghost prev = path_texts(r@);
        r.push(q);
        proof {
            assert(path_texts(items@)[i as int] == items@[i as int]@);
            assert(path_texts(r@) =~= prev.push(q@));
            assert(path_texts(r@) =~= quoted_items(path_texts(items@)).subrange(0, i + 1));
        }
        i = i + 1;
    }
    proof {
        assert(quoted_items(path_texts(items@)).subrange(0, items@.len() as int) =~= quoted_items(
            path_texts(items@),
        ));
    }
    r
}

/// The JSON object of one check.
fn check_text(c: &CheckRecord) -> (r: String)
    ensures
        r@ == check_json(*c),
{
    let mut out = String::new();
    out.append("    {\n");
    out.append("      \"program\": ");
    push_json_string(&mut out, c.program.as_str());
    out.append(",\n");
    out.append("      \"arguments\": [");
    let quoted = quote_all(c.arguments.as_slice());
    let args = join_strings(quoted.as_slice(), ", ");
    out.append(args.as_str());
    out.append("],\n");
    match c.exit_code {
        Some(code) => {
            out.append("      \"exit_code\": ");
            push_signed(&mut out, code as i64);
            out.append(",\n");
        },
        None => {
            out.append("      \"exit_code\": null,\n");
        },
    }
    out.append("      \"stdout\": ");
    push_json_string(&mut out, c.stdout.as_str());
    out.append(",\n");
    out.append("      \"stderr\": ");
    push_json_string(&mut out, c.stderr.as_str());
    out.append("\n");
    out.append("    }");
    proof {
        assert(out@ =~= check_json(*c));
    }
    out
}

/// The JSON object of one validated kernel.
fn artifact_text(a: &ArtifactRecord) -> (r: String)
    ensures
        r@ == artifact_json(*a),
{
    let mut out = String::new();
    out.append("    {\n");
    out.append("      \"file\": ");
    push_json_string(&mut out, a.file.as_str());
    out.append(",\n");
    out.append("      \"sha256\": ");
    push_json_string(&mut out, a.sha256.as_str());
    out.append(",\n");
    out.append("      \"validation_target\": \"vulkan1.2\",\n");
    out.append("      \"status\": \"passed\"\n");
    out.append("    }");
    proof {
        assert(out@ =~= artifact_json(*a));
    }
    out
}

/// The text of the validation record of a `verify` run in `mode` that
/// started and finished at the given times, failed with `failure` or passed,
/// and ran `checks` and validated `artifacts`.
pub fn validation_json(
    mode: VerifyMode,
    started: &str,
    finished: &str,
    failure: Option<&String>,
    checks: &[CheckRecord],
    artifacts: &[ArtifactRecord],
) -> (r: String)
    ensures
        r@ == spec_validation_json(
            mode,
            started@,
            finished@,
            match failure {
                Some(e) => Some(e@),
                None => None,
            },
            checks@,
            artifacts@,
        ),
{
    let mut check_texts: Vec<String> = Vec::new();
    let mut i: usize = 0;
    while i < checks.len()
        invariant
            i <= checks@.len(),
            path_texts(check_texts@) == checks_json(checks@).subrange(0, i as int),
        decreases checks@.len() - i,
    {
        let t = check_text(&checks[i]);
        let ghost prev = path_texts(check_texts@);
        check_texts.push(t);
        proof {
            assert(path_texts(check_texts@) =~= prev.push(t@));
            assert(path_texts(check_texts@) =~= checks_json(checks@).subrange(0, i + 1));
        }
        i = i + 1;
    }
    proof {
        assert(checks_json(checks@).subrange(0, checks@.len() as int) =~= checks_json(checks@));
    }
    let mut artifact_texts: Vec<String> = Vec::new();
    let mut i: usize = 0;
    while i < artifacts.len()
        invariant
            i <= artifacts@.len(),
            path_texts(artifact_texts@) == artifacts_json(artifacts@).subrange(0, i as int),
        decreases artifacts@.len() - i,
    {
        let t = artifact_text(&artifacts[i]);
        let ghost prev = path_texts(artifact_texts@);
        artifact_texts.push(t);
        proof {
            assert(path_texts(artifact_texts@) =~= prev.push(t@));
            assert(path_texts(artifact_texts@) =~= artifacts_json(artifacts@).subrange(0, i + 1));
        }
        i = i + 1;
    }
    proof {
        assert(artifacts_json(artifacts@).subrange(0, artifacts@.len() as int) =~= artifacts_json(artifacts@));
    }
    let mut json = String::new();
    json.append("{\n");
    json.append("  \"schema_version\": 1,\n");
    json.append("  \"started_utc\": ");
    push_json_string(&mut json, started);
    json.append(",\n");
    json.append("  \"finished_utc\": ");
    push_json_string(&mut json, finished);
    json.append(",\n");
    json.append("  \"mode\": ");
    push_json_string(&mut json, mode.as_str());
    json.append(",\n");
    json.append("  \"passed\": ");
    if failure.is_none() {
        json.append("true");
    } else {
        json.append("false");
    }
    json.append(",\n");
    match failure {
        Some(error) => {
            json.append("  \"failure\": ");
            push_json_string(&mut json, error.as_str());
            json.append(",\n");
        },
        None => {
            json.append("  \"failure\": null,\n");
        },
    }
    json.append(
        "  \"scope\": \"Debug native Vulkan wgpu execution of Slang-generated WGSL; SPIR-V export validation is separate.\",\n",
    );
    json.append(
        "  \"untested\": [\"browser WebGPU\", \"Metal\", \"DXIL\", \"other GPU vendors\", \"declared minimum Rust version\"],\n",
    );
    json.append("  \"checks\": [\n");
    let joined = join_strings(check_texts.as_slice(), ",\n");
    json.append(joined.as_str());
    json.append("\n  ],\n");
    json.append("  \"spirv_artifacts\": [\n");
    let joined = join_strings(artifact_texts.as_slice(), ",\n");
    json.append(joined.as_str());
    json.append("\n  ]\n}\n");
    proof {
        assert(json@ =~= spec_validation_json(
            mode,
            started@,
            finished@,
            match failure {
                Some(e) => Some(e@),
                None => None,
            },
            checks@,
            artifacts@,
        ));
    }
    json
}

/// One timed command of `measure-tests`: the command line, its time in
/// milliseconds and its exit code.
pub struct Measurement {
    pub command: String,
    pub elapsed_ms: u64,
    pub exit_code: i32,
}

/// The JSON object of one measurement.
pub open spec fn measurement_json(m: Measurement) -> Seq<char> {
    "    { \"command\": "@ + json_quoted(m.command@) + ", \"elapsed_ms\": "@ + decimal(m.elapsed_ms as nat)
        + ", \"exit_code\": "@ + signed_decimal(m.exit_code as int) + " }"@
}

pub open spec fn measurements_json_items(ms: Seq<Measurement>) -> Seq<Seq<char>> {
    Seq::new(ms.len(), |i: int| measurement_json(ms[i]))
}

/// The measurements file of `measure-tests`.
pub open spec fn spec_measurements_json(ms: Seq<Measurement>) -> Seq<char> {
    "{\n  \"schema_version\": 1,\n  \"measurements\": [\n"@ + join_all(measurements_json_items(ms), ",\n"@)
        + "\n  ]\n}\n"@
}

/// The measurements file of `measure-tests`.
pub fn measurements_json(measurements: &[Measurement]) -> (r: String)
    ensures
        r@ == spec_measurements_json(measurements@),
{
    let mut items: Vec<String> = Vec::new();
    let mut i: usize = 0;
    while i < measurements.len()
        invariant
            i <= measurements@.len(),
            path_texts(items@) == measurements_json_items(measurements@).subrange(0, i as int),
        decreases measurements@.len() - i,
    {
        let m = &measurements[i];
        let mut t = String::new();
        t.append("    { \"command\": ");
        push_json_string(&mut t, m.command.as_str());
        t.append(", \"elapsed_ms\": ");
        push_decimal(&mut t, m.elapsed_ms);
        t.append(", \"exit_code\": ");
        push_signed(&mut t, m.exit_code as i64);
        t.append(" }");
        proof {
            assert(t@ =~= measurement_json(*m));
        }
        let ghost prev = path_texts(items@);
        items.push(t);
        proof {
            assert(path_texts(items@) =~= prev.push(t@));
            assert(path_texts(items@) =~= measurements_json_items(measurements@).subrange(0, i + 1));
        }
        i = i + 1;
    }
    proof {
        assert(measurements_json_items(measurements@).subrange(0, measurements@.len() as int)
            =~= measurements_json_items(measurements@));
    }
    let mut json = String::new();
    json.append("{\n  \"schema_version\": 1,\n  \"measurements\": [\n");
    let joined = join_strings(items.as_slice(), ",\n");
    json.append(joined.as_str());
    json.append("\n  ]\n}\n");
    proof {
        assert(json@ =~= spec_measurements_json(measurements@));
    }
    json
}


/// `t` without its trailing characters equal to `c`.
pub open spec fn trim_end_char(t: Seq<char>, c: char) -> Seq<char>
    decreases t.len(),
{
    if t.len() > 0 && t.last() == c {
        trim_end_char(t.drop_last(), c)
    } else {
        t
    }
}

/// `t` without its leading characters equal to `c`.
pub open spec fn trim_start_char(t: Seq<char>, c: char) -> Seq<char>
    decreases t.len(),
{
    if t.len() > 0 && t[0] == c {
        trim_start_char(t.drop_first(), c)
    } else {
        t
    }
}

/// The pattern that starts the line of a field: its name in quotes and a
/// colon.
pub open spec fn field_pattern(name: Seq<char>) -> Seq<char> {
    seq!['"'] + name + seq!['"', ':']
}

/// The index of the first of `ls[from..]` that starts, after white space,
/// with the field's pattern.
pub open spec fn field_line_from(ls: Seq<Seq<char>>, name: Seq<char>, from: int) -> Option<int>
    decreases ls.len() - from,
{
    if from < 0 || from >= ls.len() {
        None
    } else if has_prefix(trim_start(ls[from]), field_pattern(name)) {
        Some(from)
    } else {
        field_line_from(ls, name, from + 1)
    }
}

/// The value of a field of the validation record, read from the first line
/// that holds it: what follows the first colon, trimmed, without trailing
/// commas and surrounding quotes.
pub open spec fn field_value(text: Seq<char>, name: Seq<char>) -> Option<Seq<char>> {
    let ls = lines(text);
    match field_line_from(ls, name, 0) {
        Some(i) => match split_once(ls[i], seq![':']) {
            Some((_, rest)) => Some(trim_end_char(trim_start_char(trim_end_char(trim(rest), ','), '"'), '"')),
            None => None,
        },
        None => None,
    }
}

pub open spec fn or_unknown(v: Option<Seq<char>>) -> Seq<char> {
    match v {
        Some(t) => t,
        None => "unknown"@,
    }
}

/// The one-line summary of a validation record.
pub open spec fn spec_validation_summary(text: Seq<char>) -> Seq<char> {
    "finished="@ + or_unknown(field_value(text, "finished_utc"@)) + " mode="@ + or_unknown(
        field_value(text, "mode"@),
    ) + " passed="@ + or_unknown(field_value(text, "passed"@))
}

proof fn lemma_trim_end_char_fixed(t: Seq<char>, c: char)
    requires
        t.len() == 0 || t.last() != c,
    ensures
        trim_end_char(t, c) == t,
{
}

proof fn lemma_trim_start_char_fixed(t: Seq<char>, c: char)
    requires
        t.len() == 0 || t[0] != c,
    ensures
        trim_start_char(t, c) == t,
{
}

/// The end of `v[lo..hi]` with trailing `c` removed.
fn trim_end_char_bound(v: &[char], lo: usize, hi: usize, c: char) -> (b: usize)
    requires
        lo <= hi <= v@.len(),
    ensures
        lo <= b <= hi,
        v@.subrange(lo as int, b as int) == trim_end_char(v@.subrange(lo as int, hi as int), c),
{
    let mut b = hi;
    while b > lo && v[b - 1] == c
        invariant
            lo <= b <= hi <= v@.len(),
            trim_end_char(v@.subrange(lo as int, hi as int), c) == trim_end_char(v@.subrange(lo as int, b as int), c),
        decreases b - lo,
    {
        proof {
            assert(v@.subrange(lo as int, b as int).drop_last() =~= v@.subrange(lo as int, b - 1));
        }
        b = b - 1;
    }
    proof {
        lemma_trim_end_char_fixed(v@.subrange(lo as int, b as int), c);
    }
    b
}

/// The start of `v[lo..hi]` with leading `c` removed.
fn trim_start_char_bound(v: &[char], lo: usize, hi: usize, c: char) -> (a: usize)
    requires
        lo <= hi <= v@.len(),
    ensures
        lo <= a <= hi,
        v@.subrange(a as int, hi as int) == trim_start_char(v@.subrange(lo as int, hi as int), c),
{
    let mut a = lo;
    while a < hi && v[a] == c
        invariant
            lo <= a <= hi <= v@.len(),
            trim_start_char(v@.subrange(lo as int, hi as int), c) == trim_start_char(v@.subrange(a as int, hi as int), c),
        decreases hi - a,
    {
        proof {
            assert(v@.subrange(a as int, hi as int).drop_first() =~= v@.subrange(a + 1, hi as int));
        }
        a = a + 1;
    }
    proof {
        lemma_trim_start_char_fixed(v@.subrange(a as int, hi as int), c);
    }
    a
}

/// The value of the field `name` in the record `v`.
fn record_field(v: &Vec<char>, bounds: &Vec<(usize, usize)>, name: &str) -> (r: Option<String>)
    requires
        bounds@.len() == lines(v@).len(),
        forall|k: int| 0 <= k < bounds@.len() ==> (#[trigger] bounds@[k]).0 <= bounds@[k].1 <= v@.len(),
        forall|k: int| 0 <= k < bounds@.len() ==> #[trigger] v@.subrange(bounds@[k].0 as int, bounds@[k].1 as int) == lines(v@)[k],
    ensures
        match field_value(v@, name@) {
            Some(t) => r matches Some(s) && s@ == t,
            None => r is None,
        },
{
    let ghost ls = lines(v@);
    let mut pattern: Vec<char> = Vec::new();
    pattern.push('"');
    let n = chars_of(name);
    let mut k: usize = 0;
    while k < n.len()
        invariant
            k <= n@.len(),
            pattern@ == seq!['"'] + n@.subrange(0, k as int),
        decreases n@.len() - k,
    {
        pattern.push(n[k]);
        proof {
            assert(pattern@ =~= seq!['"'] + n@.subrange(0, k + 1));
        }
        k = k + 1;
    }
    pattern.push('"');
    pattern.push(':');
    proof {
        assert(n@.subrange(0, n@.len() as int) =~= name@);
        assert(pattern@ =~= field_pattern(name@));
    }
    let mut i: usize = 0;
    while i < bounds.len()
        invariant
            i <= bounds@.len(),
            ls == lines(v@),
            bounds@.len() == ls.len(),
            forall|k: int| 0 <= k < bounds@.len() ==> (#[trigger] bounds@[k]).0 <= bounds@[k].1 <= v@.len(),
            forall|k: int| 0 <= k < bounds@.len() ==> #[trigger] v@.subrange(bounds@[k].0 as int, bounds@[k].1 as int) == ls[k],
            pattern@ == field_pattern(name@),
            field_line_from(ls, name@, 0) == field_line_from(ls, name@, i as int),
        decreases bounds@.len() - i,
    {
        let (lo, hi) = bounds[i];
        proof {
            assert(v@.subrange(bounds@[i as int].0 as int, bounds@[i as int].1 as int) == ls[i as int]);
        }
        let a = trim_start_bounds(v.as_slice(), lo, hi);
        if starts_with_at(v.as_slice(), a, hi, pattern.as_slice()) {
            let colon: Vec<char> = vec![':'];
            proof {
                assert(colon@ =~= seq![':']);
            }
            match find_first(v.as_slice(), lo, hi, colon.as_slice()) {
                Some(p) => {
                    let start = lo + p + 1;
                    let (ta, tb) = trim_bounds(v.as_slice(), start, hi);
                    let tb = trim_end_char_bound(v.as_slice(), ta, tb, ',');
                    let ta = trim_start_char_bound(v.as_slice(), ta, tb, '"');
                    let tb = trim_end_char_bound(v.as_slice(), ta, tb, '"');
                    proof {
                        let line = v@.subrange(lo as int, hi as int);
                        assert(line.subrange(p + 1, line.len() as int) =~= v@.subrange(start as int, hi as int));
                    }
                    return Some(string_of(v.as_slice(), ta, tb));
                },
                None => {
                    return None;
                },
            }
        }
        i = i + 1;
    }
    None
}

/// The one-line summary of a validation record: when it finished, its mode
/// and whether it passed, `unknown` for what the record lacks.
pub fn compact_validation_summary(text: &str) -> (r: String)
    ensures
        r@ == spec_validation_summary(text@),
{
    let v = chars_of(text);
    let bounds = line_bounds(v.as_slice());
    let finished = record_field(&v, &bounds, "finished_utc");
    let mode = record_field(&v, &bounds, "mode");
    let passed = record_field(&v, &bounds, "passed");
    let mut out = String::new();
    out.append("finished=");
    match &finished {
        Some(t) => out.append(t.as_str()),
        None => out.append("unknown"),
    }
    out.append(" mode=");
    match &mode {
        Some(t) => out.append(t.as_str()),
        None => out.append("unknown"),
    }
    out.append(" passed=");
    match &passed {
        Some(t) => out.append(t.as_str()),
        None => out.append("unknown"),
    }
    proof {
        assert(out@ =~= spec_validation_summary(text@));
    }
    out
}


/// A leap year of the proleptic Gregorian calendar.
pub open spec fn is_leap_year(y: int) -> bool {
    (y % 4 == 0 && y % 100 != 0) || y % 400 == 0
}

/// The number of days of month `m` of year `y`.
pub open spec fn days_in_month(y: int, m: int) -> int {
    if m == 2 {
        if is_leap_year(y) {
            29
        } else {
            28
        }
    } else if m == 4 || m == 6 || m == 9 || m == 11 {
        30
    } else {
        31
    }
}

/// The days of year `y` before the first of month `m`.
pub open spec fn days_before_month(y: int, m: int) -> int {
    (if m == 1 {
        0int
    } else if m == 2 {
        31
    } else if m == 3 {
        59
    } else if m == 4 {
        90
    } else if m == 5 {
        120
    } else if m == 6 {
        151
    } else if m == 7 {
        181
    } else if m == 8 {
        212
    } else if m == 9 {
        243
    } else if m == 10 {
        273
    } else if m == 11 {
        304
    } else {
        334
    }) + if m > 2 && is_leap_year(y) {
        1int
    } else {
        0int
    }
}

/// The leap years among years `1..y` (counted the same way for every `y`).
pub open spec fn leap_years_before(y: int) -> int {
    (y - 1) / 4 - (y - 1) / 100 + (y - 1) / 400
}

/// The number of the day `y-m-d`, counted from 1970-01-01.
pub open spec fn day_number(y: int, m: int, d: int) -> int {
    365 * (y - 1970) + leap_years_before(y) - leap_years_before(1970) + days_before_month(y, m) + d - 1
}

/// `y-m-d` is a date of the calendar.
pub open spec fn is_date(y: int, m: int, d: int) -> bool {
    1 <= m <= 12 && 1 <= d <= days_in_month(y, m)
}

/// Within a 400-year cycle of days counted from a first of March, the year
/// that the civil-date computation finds starts no later than `doe`, leaves
/// at most 365 more days, and leaves all 366 only when the February that
/// ends it has a leap day.
proof fn lemma_cycle_year(doe: u32, yoe: u32, next: u32, doy: u32)
    requires
        doe < 146097,
        yoe == (doe - doe / 1460 + doe / 36524 - doe / 146096) / 365,
        next == yoe + 1,
        doy == doe - (365 * yoe + yoe / 4 - yoe / 100),
    ensures
        yoe <= 399,
        365 * yoe + yoe / 4 - yoe / 100 <= doe,
        doy <= 365,
        doy == 365 ==> (next % 4 == 0 && next % 100 != 0) || next % 400 == 0,
{
    assert(yoe <= 399 && 365 * yoe + yoe / 4 - yoe / 100 <= doe) by (bit_vector)
        requires
            doe < 146097u32,
            yoe == (doe - doe / 1460 + doe / 36524 - doe / 146096) / 365,
    ;
    assert(doy <= 365 && (doy == 365 ==> (next % 4 == 0 && next % 100 != 0) || next % 400 == 0)) by (bit_vector)
        requires
            doe < 146097u32,
            yoe == (doe - doe / 1460 + doe / 36524 - doe / 146096) / 365,
            next == yoe + 1,
            doy == doe - (365 * yoe + yoe / 4 - yoe / 100),
    ;
}

/// The leap years up to and including year `y >= 0`.
proof fn lemma_leaps_through(y: int)
    requires
        y >= 0,
    ensures
        leap_years_before(y) + (if is_leap_year(y) {
            1int
        } else {
            0int
        }) == y / 4 - y / 100 + y / 400,
{
    assert((y - 1) / 4 == y / 4 - (if y % 4 == 0 { 1int } else { 0int })) by (nonlinear_arith);
    assert((y - 1) / 100 == y / 100 - (if y % 100 == 0 { 1int } else { 0int })) by (nonlinear_arith);
    assert((y - 1) / 400 == y / 400 - (if y % 400 == 0 { 1int } else { 0int })) by (nonlinear_arith);
    assert(y % 400 == 0 ==> y % 100 == 0 && y % 4 == 0) by (nonlinear_arith);
    assert(y % 100 == 0 ==> y % 4 == 0) by (nonlinear_arith);
}

/// Within one 400-year cycle of days counted from a first of March, the
/// year, month and day that the civil-date computation finds are a date,
/// lying `doe + 59` days after the first of January of the cycle's year 0.
proof fn lemma_cycle_date(doe: int, yoe: int, doy: int, mp: int, d: int, m: int, k: int)
    requires
        0 <= doe < 146097,
        yoe == (doe - doe / 1460 + doe / 36524 - doe / 146096) / 365,
        doy == doe - (365 * yoe + yoe / 4 - yoe / 100),
        mp == (5 * doy + 2) / 153,
        d == doy - (153 * mp + 2) / 5 + 1,
        m == if mp < 10 {
            mp + 3
        } else {
            mp - 9
        },
        k == yoe + if m <= 2 {
            1int
        } else {
            0int
        },
    ensures
        0 <= yoe <= 399,
        0 <= doy <= 365,
        0 <= mp <= 11,
        0 <= k <= 400,
        is_date(k, m, d),
        365 * k + leap_years_before(k) + days_before_month(k, m) + d - 1 == doe + 59,
{
    assert(doe - doe / 1460 + doe / 36524 - doe / 146096 >= 0);
    lemma_cycle_year(doe as u32, yoe as u32, (yoe + 1) as u32, doy as u32);
    assert(0 <= mp <= 11);
    assert(5 * doy + 2 < 153 * (mp + 1));
    assert(153 * mp <= 5 * doy + 2);
    if m <= 2 {
        lemma_leaps_through(yoe);
        assert(leap_years_before(k) == yoe / 4 - yoe / 100 + yoe / 400);
        assert(yoe / 400 == 0);
    } else {
        lemma_leaps_through(yoe);
        assert(yoe / 400 == 0);
    }
}

/// The first of January of year `y + 1` comes `365` days after that of
/// year `y`, or `366` when `y` is a leap year.
proof fn lemma_next_year(y: int)
    ensures
        day_number(y + 1, 1, 1) == day_number(y, 1, 1) + 365 + if is_leap_year(y) {
            1int
        } else {
            0int
        },
{
    assert(y / 4 == (y - 1) / 4 + (if y % 4 == 0 { 1int } else { 0int })) by (nonlinear_arith);
    assert(y / 100 == (y - 1) / 100 + (if y % 100 == 0 { 1int } else { 0int })) by (nonlinear_arith);
    assert(y / 400 == (y - 1) / 400 + (if y % 400 == 0 { 1int } else { 0int })) by (nonlinear_arith);
    assert(y % 400 == 0 ==> y % 100 == 0 && y % 4 == 0) by (nonlinear_arith);
    assert(y % 100 == 0 ==> y % 4 == 0) by (nonlinear_arith);
}

/// The days of a date lie within its year: from its first of January to
/// the day before the next year's.
proof fn lemma_date_in_year(y: int, m: int, d: int)
    requires
        is_date(y, m, d),
    ensures
        day_number(y, 1, 1) <= day_number(y, m, d) < day_number(y + 1, 1, 1),
{
    lemma_next_year(y);
}

/// Later years start later.
proof fn lemma_years_increase(a: int, b: int)
    requires
        a < b,
    ensures
        day_number(a + 1, 1, 1) <= day_number(b, 1, 1),
    decreases b - a,
{
    if a + 1 < b {
        lemma_years_increase(a, b - 1);
        lemma_next_year(b - 1);
    }
}

/// Different dates have different day numbers: each day number belongs to
/// exactly one date, so `civil_from_days` has one answer.
pub proof fn lemma_day_number_injective(y1: int, m1: int, d1: int, y2: int, m2: int, d2: int)
    requires
        is_date(y1, m1, d1),
        is_date(y2, m2, d2),
        day_number(y1, m1, d1) == day_number(y2, m2, d2),
    ensures
        y1 == y2 && m1 == m2 && d1 == d2,
{
    lemma_date_in_year(y1, m1, d1);
    lemma_date_in_year(y2, m2, d2);
    if y1 < y2 {
        lemma_years_increase(y1, y2);
    } else if y2 < y1 {
        lemma_years_increase(y2, y1);
    } else {
        assert(days_before_month(y1, m1) + d1 == days_before_month(y1, m2) + d2);
    }
}

/// Shifting a year by whole 400-year cycles shifts its leap years before it
/// by 97 a cycle and keeps its months.
proof fn lemma_cycle_shift(e: int, k: int, m: int)
    ensures
        leap_years_before(400 * e + k) == 97 * e + leap_years_before(k),
        is_leap_year(400 * e + k) == is_leap_year(k),
        days_before_month(400 * e + k, m) == days_before_month(k, m),
{
    assert((400 * e + k - 1) / 4 == 100 * e + (k - 1) / 4) by (nonlinear_arith);
    assert((400 * e + k - 1) / 100 == 4 * e + (k - 1) / 100) by (nonlinear_arith);
    assert((400 * e + k - 1) / 400 == e + (k - 1) / 400) by (nonlinear_arith);
    assert((400 * e + k) % 4 == k % 4) by (nonlinear_arith);
    assert((400 * e + k) % 100 == k % 100) by (nonlinear_arith);
    assert((400 * e + k) % 400 == k % 400) by (nonlinear_arith);
}

/// The era computed with truncating division of a shifted numerator is the
/// floor of `z / 146097`.
proof fn lemma_era_floor(z: int, era: int)
    requires
        era == if z >= 0 {
            z / 146097
        } else {
            -((146096 - z) / 146097)
        },
    ensures
        0 <= z - era * 146097 < 146097,
{
    if z < 0 {
        let w = 146096 - z;
        assert(w == 146097 * (w / 146097) + w % 146097) by (nonlinear_arith);
    } else {
        assert(z == 146097 * (z / 146097) + z % 146097) by (nonlinear_arith);
    }
}

/// The civil date of a day number, days counted from 1970-01-01: the date
/// of the proleptic Gregorian calendar whose day number it is.
#[verifier::rlimit(40)]
pub fn civil_from_days(days_since_epoch: i64) -> (r: (i64, u32, u32))
    requires
        days_since_epoch <= i64::MAX - 719_468,
    ensures
        is_date(r.0 as int, r.1 as int, r.2 as int),
        day_number(r.0 as int, r.1 as int, r.2 as int) == days_since_epoch,
{
    let z = days_since_epoch + 719_468;
    let era: i64 = if z >= 0 {
        z / 146_097
    } else {
        -((146_096 - z) / 146_097)
    };
    proof {
        lemma_era_floor(z as int, era as int);
        assert(-0x4000_0000_0000 <= era <= 0x4000_0000_0000) by (nonlinear_arith)
            requires
                0 <= z - era * 146097 < 146097,
                i64::MIN + 719468 <= z <= i64::MAX,
        ;
    }
    let doe = z - era * 146_097;
    assert(0 <= doe < 146_097);
    let yoe = (doe - doe / 1_460 + doe / 36_524 - doe / 146_096) / 365;
    let doy = doe - (365 * yoe + yoe / 4 - yoe / 100);
    let mp = (5 * doy + 2) / 153;
    let day = doy - (153 * mp + 2) / 5 + 1;
    let month = mp + if mp < 10 {
        3
    } else {
        -9
    };
    let k = yoe + if month <= 2 {
        1
    } else {
        0
    };
    proof {
        lemma_cycle_date(doe as int, yoe as int, doy as int, mp as int, day as int, month as int, k as int);
        assert(leap_years_before(1970) == 477);
        lemma_cycle_shift(era as int, k as int, month as int);
    }
    let year = k + era * 400;
    (year, month as u32, day as u32)
}


/// `t` with zeros in front up to `width` characters.
pub open spec fn zero_pad(t: Seq<char>, width: int) -> Seq<char> {
    if t.len() < width {
        Seq::new((width - t.len()) as nat, |i: int| '0') + t
    } else {
        t
    }
}

/// `n` in decimal, zero-padded to `width` characters after its sign, as
/// `format!("{n:0width$}")` writes it.
pub open spec fn padded(n: int, width: int) -> Seq<char> {
    if n < 0 {
        seq!['-'] + zero_pad(decimal((-n) as nat), width - 1)
    } else {
        zero_pad(decimal(n as nat), width)
    }
}

/// The ISO 8601 UTC time stamp of a date and the seconds into its day.
pub open spec fn utc_text(y: int, m: int, d: int, day_seconds: int) -> Seq<char> {
    padded(y, 4) + seq!['-'] + padded(m, 2) + seq!['-'] + padded(d, 2) + seq!['T'] + padded(
        day_seconds / 3600,
        2,
    ) + seq![':'] + padded((day_seconds % 3600) / 60, 2) + seq![':'] + padded(day_seconds % 60, 2)
        + seq!['Z']
}

/// Appends `n` zero-padded to `width` characters after its sign.
fn push_padded(out: &mut String, n: i64, width: usize)
    requires
        1 <= width <= 8,
    ensures
        final(out)@ == old(out)@ + padded(n as int, width as int),
{
    let ghost start = out@;
    let magnitude: u64 = if n < 0 {
        if n == i64::MIN {
            9223372036854775808u64
        } else {
            (-n) as u64
        }
    } else {
        n as u64
    };
    let w = if n < 0 {
        push_char(out, '-');
        width - 1
    } else {
        width
    };
    let mut digits = String::new();
    push_decimal(&mut digits, magnitude);
    let v = chars_of(digits.as_str());
    let ghost before_zeros = out@;
    let mut i: usize = v.len();
    while i < w
        invariant
            v@ == decimal(magnitude as nat),
            v@.len() <= i <= w || (v@.len() >= w && i == v@.len()),
            out@ == before_zeros + Seq::new((i - v@.len()) as nat, |k: int| '0'),
        decreases w - i,
    {
        push_char(out, '0');
        proof {
            assert(out@ =~= before_zeros + Seq::new((i + 1 - v@.len()) as nat, |k: int| '0'));
        }
        i = i + 1;
    }
    out.append(digits.as_str());
    proof {
        if v@.len() < w {
            assert(out@ =~= before_zeros + zero_pad(decimal(magnitude as nat), w as int));
        } else {
            assert(Seq::new((i - v@.len()) as nat, |k: int| '0') =~= Seq::<char>::empty());
            assert(out@ =~= before_zeros + zero_pad(decimal(magnitude as nat), w as int));
        }
        assert(out@ =~= start + padded(n as int, width as int));
    }
}

/// The ISO 8601 UTC time stamp (`YYYY-MM-DDTHH:MM:SSZ`) of a time given in
/// seconds since 1970-01-01T00:00:00Z.
pub fn utc_timestamp(seconds: i64) -> (r: String)
    ensures
        exists|y: int, m: int, d: int|
            #![trigger day_number(y, m, d)]
            is_date(y, m, d) && day_number(y, m, d) == (seconds as int) / 86400 && r@ == utc_text(
                y,
                m,
                d,
                (seconds as int) % 86400,
            ),
{
    let (days, day_seconds): (i64, i64) = if seconds >= 0 {
        (seconds / 86_400, seconds % 86_400)
    } else {
        let pos = -(seconds + 1);
        (-(pos / 86_400) - 1, 86_399 - pos % 86_400)
    };
    assert(days == seconds / 86400 && day_seconds == seconds % 86400) by (nonlinear_arith)
        requires
            seconds >= 0 ==> days == seconds / 86400 && day_seconds == seconds % 86400,
            seconds < 0 ==> days == -((-(seconds + 1)) / 86400) - 1 && day_seconds == 86399 - (-(seconds
                + 1)) % 86400,
    ;
    assert(-0x4000_0000_0000_0000 <= days <= 0x4000_0000_0000_0000) by (nonlinear_arith)
        requires
            days == seconds / 86400,
            i64::MIN <= seconds <= i64::MAX,
    ;
    let (year, month, day) = civil_from_days(days);
    let hour = day_seconds / 3_600;
    let minute = (day_seconds % 3_600) / 60;
    let second = day_seconds % 60;
    let mut out = String::new();
    push_padded(&mut out, year, 4);
    push_char(&mut out, '-');
    push_padded(&mut out, month as i64, 2);
    push_char(&mut out, '-');
    push_padded(&mut out, day as i64, 2);
    push_char(&mut out, 'T');
    push_padded(&mut out, hour, 2);
    push_char(&mut out, ':');
    push_padded(&mut out, minute, 2);
    push_char(&mut out, ':');
    push_padded(&mut out, second, 2);
    push_char(&mut out, 'Z');
    proof {
        assert(out@ =~= utc_text(year as int, month as int, day as int, (seconds as int) % 86400));
        assert(day_number(year as int, month as int, day as int) == (seconds as int) / 86400);
    }
    out
}


/// Addition modulo 2^32.
pub open spec fn add32(x: u32, y: u32) -> u32 {
    if x + y > u32::MAX {
        (x + y - 0x1_0000_0000) as u32
    } else {
        (x + y) as u32
    }
}

/// Rotation of a 32-bit word right by `n` bits, `0 < n < 32`.
pub open spec fn rotr(x: u32, n: u32) -> u32 {
    (x >> n) | (x << ((32 - n) as u32))
}

pub open spec fn big_sigma0(x: u32) -> u32 {
    rotr(x, 2) ^ rotr(x, 13) ^ rotr(x, 22)
}

pub open spec fn big_sigma1(x: u32) -> u32 {
    rotr(x, 6) ^ rotr(x, 11) ^ rotr(x, 25)
}

pub open spec fn small_sigma0(x: u32) -> u32 {
    rotr(x, 7) ^ rotr(x, 18) ^ (x >> 3)
}

pub open spec fn small_sigma1(x: u32) -> u32 {
    rotr(x, 17) ^ rotr(x, 19) ^ (x >> 10)
}

pub open spec fn choose_bits(x: u32, y: u32, z: u32) -> u32 {
    (x & y) ^ ((!x) & z)
}

pub open spec fn majority(x: u32, y: u32, z: u32) -> u32 {
    (x & y) ^ (x & z) ^ (y & z)
}

/// The SHA-256 round constants.
pub open spec fn sha256_constants() -> Seq<u32> {
    seq![
        0x428a2f98,
        0x71374491,
        0xb5c0fbcf,
        0xe9b5dba5,
        0x3956c25b,
        0x59f111f1,
        0x923f82a4,
        0xab1c5ed5,
        0xd807aa98,
        0x12835b01,
        0x243185be,
        0x550c7dc3,
        0x72be5d74,
        0x80deb1fe,
        0x9bdc06a7,
        0xc19bf174,
        0xe49b69c1,
        0xefbe4786,
        0x0fc19dc6,
        0x240ca1cc,
        0x2de92c6f,
        0x4a7484aa,
        0x5cb0a9dc,
        0x76f988da,
        0x983e5152,
        0xa831c66d,
        0xb00327c8,
        0xbf597fc7,
        0xc6e00bf3,
        0xd5a79147,
        0x06ca6351,
        0x14292967,
        0x27b70a85,
        0x2e1b2138,
        0x4d2c6dfc,
        0x53380d13,
        0x650a7354,
        0x766a0abb,
        0x81c2c92e,
        0x92722c85,
        0xa2bfe8a1,
        0xa81a664b,
        0xc24b8b70,
        0xc76c51a3,
        0xd192e819,
        0xd6990624,
        0xf40e3585,
        0x106aa070,
        0x19a4c116,
        0x1e376c08,
        0x2748774c,
        0x34b0bcb5,
        0x391c0cb3,
        0x4ed8aa4a,
        0x5b9cca4f,
        0x682e6ff3,
        0x748f82ee,
        0x78a5636f,
        0x84c87814,
        0x8cc70208,
        0x90befffa,
        0xa4506ceb,
        0xbef9a3f7,
        0xc67178f2,
    ]
}

/// The SHA-256 initial hash value.
pub open spec fn sha256_initial() -> Seq<u32> {
    seq![0x6a09e667, 0xbb67ae85, 0x3c6ef372, 0xa54ff53a, 0x510e527f, 0x9b05688c, 0x1f83d9ab, 0x5be0cd19]
}

/// The big-endian word at `b[i..i + 4]`.
pub open spec fn be_word(b: Seq<u8>, i: int) -> u32 {
    ((b[i] as u32) << 24u32) | ((b[i + 1] as u32) << 16u32) | ((b[i + 2] as u32) << 8u32) | (b[i + 3] as u32)
}

/// Word `t` of the message schedule of a block of sixteen words.
pub open spec fn schedule(m: Seq<u32>, t: int) -> u32
    decreases t,
{
    if t < 16 {
        m[t]
    } else {
        add32(
            add32(add32(schedule(m, t - 16), small_sigma0(schedule(m, t - 15))), schedule(m, t - 7)),
            small_sigma1(schedule(m, t - 2)),
        )
    }
}

/// The eight working variables of the compression function.
pub struct RoundState {
    pub a: u32,
    pub b: u32,
    pub c: u32,
    pub d: u32,
    pub e: u32,
    pub f: u32,
    pub g: u32,
    pub h: u32,
}

/// One round of the compression function with constant `k` and schedule
/// word `w`.
pub open spec fn sha256_round(s: RoundState, k: u32, w: u32) -> RoundState {
    let t1 = add32(add32(add32(add32(s.h, big_sigma1(s.e)), choose_bits(s.e, s.f, s.g)), k), w);
    let t2 = add32(big_sigma0(s.a), majority(s.a, s.b, s.c));
    RoundState { a: add32(t1, t2), b: s.a, c: s.b, d: s.c, e: add32(s.d, t1), f: s.e, g: s.f, h: s.g }
}

/// The working variables after the first `t` rounds over block `m`.
pub open spec fn sha256_rounds(s: RoundState, m: Seq<u32>, t: int) -> RoundState
    decreases t,
{
    if t <= 0 {
        s
    } else {
        sha256_round(sha256_rounds(s, m, t - 1), sha256_constants()[t - 1], schedule(m, t - 1))
    }
}

pub open spec fn state_of(h: Seq<u32>) -> RoundState {
    RoundState { a: h[0], b: h[1], c: h[2], d: h[3], e: h[4], f: h[5], g: h[6], h: h[7] }
}

/// The hash value after compressing block `m` into `h`.
pub open spec fn compress(h: Seq<u32>, m: Seq<u32>) -> Seq<u32> {
    let s = sha256_rounds(state_of(h), m, 64);
    seq![
        add32(h[0], s.a),
        add32(h[1], s.b),
        add32(h[2], s.c),
        add32(h[3], s.d),
        add32(h[4], s.e),
        add32(h[5], s.f),
        add32(h[6], s.g),
        add32(h[7], s.h),
    ]
}

/// The number of zero bytes that pad a message of `len` bytes, after its
/// `0x80` byte, to 56 bytes modulo 64.
pub open spec fn zero_padding(len: nat) -> nat {
    ((119 - (len % 64)) % 64) as nat
}

/// The eight big-endian bytes of `x`.
pub open spec fn be_u64_bytes(x: u64) -> Seq<u8> {
    seq![
        (x >> 56u64) as u8,
        (x >> 48u64) as u8,
        (x >> 40u64) as u8,
        (x >> 32u64) as u8,
        (x >> 24u64) as u8,
        (x >> 16u64) as u8,
        (x >> 8u64) as u8,
        x as u8,
    ]
}

/// The padded message: the message, a `0x80` byte, zeros, and the
/// message's length in bits as a big-endian 64-bit number.
pub open spec fn padded_message(msg: Seq<u8>) -> Seq<u8> {
    msg + seq![0x80u8] + Seq::new(zero_padding(msg.len()), |i: int| 0u8) + be_u64_bytes(
        (msg.len() * 8) as u64,
    )
}

/// The sixteen words of block `j` of `p`.
pub open spec fn block_words(p: Seq<u8>, j: int) -> Seq<u32> {
    Seq::new(16, |i: int| be_word(p, 64 * j + 4 * i))
}

/// The hash value after the first `n` blocks of `p`.
pub open spec fn hash_blocks(p: Seq<u8>, n: int) -> Seq<u32>
    decreases n,
{
    if n <= 0 {
        sha256_initial()
    } else {
        compress(hash_blocks(p, n - 1), block_words(p, n - 1))
    }
}

/// The four big-endian bytes of `x`.
pub open spec fn be_u32_bytes(x: u32) -> Seq<u8> {
    seq![(x >> 24u32) as u8, (x >> 16u32) as u8, (x >> 8u32) as u8, x as u8]
}

/// The SHA-256 digest of `msg` (FIPS 180-4).
pub open spec fn sha256_digest(msg: Seq<u8>) -> Seq<u8> {
    let p = padded_message(msg);
    let h = hash_blocks(p, (p.len() / 64) as int);
    be_u32_bytes(h[0]) + be_u32_bytes(h[1]) + be_u32_bytes(h[2]) + be_u32_bytes(h[3]) + be_u32_bytes(h[4])
        + be_u32_bytes(h[5]) + be_u32_bytes(h[6]) + be_u32_bytes(h[7])
}

/// A SHA-256 digest is 32 bytes long.
pub proof fn lemma_digest_len(msg: Seq<u8>)
    ensures
        sha256_digest(msg).len() == 32,
{
}

fn rotate_right(x: u32, n: u32) -> (r: u32)
    requires
        0 < n < 32,
    ensures
        r == rotr(x, n),
{
    (x >> n) | (x << (32 - n))
}

fn sha256_constants_exec() -> (r: Vec<u32>)
    ensures
        r@ == sha256_constants(),
{
    let r = vec![
        0x428a2f98,
        0x71374491,
        0xb5c0fbcf,
        0xe9b5dba5,
        0x3956c25b,
        0x59f111f1,
        0x923f82a4,
        0xab1c5ed5,
        0xd807aa98,
        0x12835b01,
        0x243185be,
        0x550c7dc3,
        0x72be5d74,
        0x80deb1fe,
        0x9bdc06a7,
        0xc19bf174,
        0xe49b69c1,
        0xefbe4786,
        0x0fc19dc6,
        0x240ca1cc,
        0x2de92c6f,
        0x4a7484aa,
        0x5cb0a9dc,
        0x76f988da,
        0x983e5152,
        0xa831c66d,
        0xb00327c8,
        0xbf597fc7,
        0xc6e00bf3,
        0xd5a79147,
        0x06ca6351,
        0x14292967,
        0x27b70a85,
        0x2e1b2138,
        0x4d2c6dfc,
        0x53380d13,
        0x650a7354,
        0x766a0abb,
        0x81c2c92e,
        0x92722c85,
        0xa2bfe8a1,
        0xa81a664b,
        0xc24b8b70,
        0xc76c51a3,
        0xd192e819,
        0xd6990624,
        0xf40e3585,
        0x106aa070,
        0x19a4c116,
        0x1e376c08,
        0x2748774c,
        0x34b0bcb5,
        0x391c0cb3,
        0x4ed8aa4a,
        0x5b9cca4f,
        0x682e6ff3,
        0x748f82ee,
        0x78a5636f,
        0x84c87814,
        0x8cc70208,
        0x90befffa,
        0xa4506ceb,
        0xbef9a3f7,
        0xc67178f2,
    ];
    proof {
        assert(r@ =~= sha256_constants());
    }
    r
}

/// The padded message, built by appending to a copy of `input`.
fn pad_message(input: &[u8]) -> (data: Vec<u8>)
    requires
        input@.len() * 8 <= u64::MAX,
        input@.len() + 72 <= usize::MAX,
    ensures
        data@ == padded_message(input@),
        data@.len() % 64 == 0,
{
    let mut data: Vec<u8> = Vec::new();
    let mut i: usize = 0;
    while i < input.len()
        invariant
            i <= input@.len(),
            data@ == input@.subrange(0, i as int),
        decreases input@.len() - i,
    {
        data.push(input[i]);
        proof {
            assert(data@ =~= input@.subrange(0, i + 1));
        }
        i = i + 1;
    }
    proof {
        assert(input@.subrange(0, input@.len() as int) =~= input@);
    }
    let bit_len: u64 = (input.len() as u64) * 8;
    data.push(0x80);
    let ghost head = data@;
    let zeros: usize = (119 - input.len() % 64) % 64;
    let mut z: usize = 0;
    while z < zeros
        invariant
            head == input@ + seq![0x80u8],
            z <= zeros <= 63,
            data@ == head + Seq::new(z as nat, |k: int| 0u8),
            input@.len() + 72 <= usize::MAX,
        decreases zeros - z,
    {
        data.push(0);
        z = z + 1;
        proof {
            assert(data@ =~= head + Seq::new(z as nat, |k: int| 0u8));
        }
    }
    assert((input@.len() + 1 + zeros + 8) % 64 == 0) by (nonlinear_arith)
        requires
            zeros == (119 - input@.len() % 64) % 64,
    ;
    let ghost body = data@;
    data.push((bit_len >> 56) as u8);
    data.push((bit_len >> 48) as u8);
    data.push((bit_len >> 40) as u8);
    data.push((bit_len >> 32) as u8);
    data.push((bit_len >> 24) as u8);
    data.push((bit_len >> 16) as u8);
    data.push((bit_len >> 8) as u8);
    data.push(bit_len as u8);
    proof {
        assert(data@ =~= body + be_u64_bytes(bit_len));
        assert(data@ =~= padded_message(input@));
    }
    data
}

/// Compresses block `j` of `data` into the hash value `h`.
fn compress_block(h: &Vec<u32>, data: &Vec<u8>, j: usize, k: &Vec<u32>) -> (r: Vec<u32>)
    requires
        h@.len() == 8,
        k@ == sha256_constants(),
        64 * j + 64 <= data@.len(),
    ensures
        r@ == compress(h@, block_words(data@, j as int)),
{
    let ghost m = block_words(data@, j as int);
    let n = data.len();
    assert(64 * j <= n);
    let base = 64 * j;
    let mut w: Vec<u32> = Vec::new();
    let mut i: usize = 0;
    while i < 16
        invariant
            base == 64 * j,
            base + 64 <= data@.len(),
            m == block_words(data@, j as int),
            i <= 16,
            w@.len() == i,
            forall|t: int| 0 <= t < i ==> w@[t] == #[trigger] schedule(m, t),
        decreases 16 - i,
    {
        let o = base + 4 * i;
        let word = ((data[o] as u32) << 24u32) | ((data[o + 1] as u32) << 16u32) | ((data[o + 2] as u32) << 8u32)
            | (data[o + 3] as u32);
        proof {
            assert(schedule(m, i as int) == m[i as int]);
        }
        w.push(word);
        i = i + 1;
    }
    while i < 64
        invariant
            16 <= i <= 64,
            w@.len() == i,
            forall|t: int| 0 <= t < i ==> w@[t] == #[trigger] schedule(m, t),
        decreases 64 - i,
    {
        let x = w[i - 15];
        let y = w[i - 2];
        let s0 = rotate_right(x, 7) ^ rotate_right(x, 18) ^ (x >> 3);
        let s1 = rotate_right(y, 17) ^ rotate_right(y, 19) ^ (y >> 10);
        let next = w[i - 16].wrapping_add(s0).wrapping_add(w[i - 7]).wrapping_add(s1);
        proof {
            assert(w@[i - 16] == schedule(m, i - 16));
            assert(w@[i - 15] == schedule(m, i - 15));
            assert(w@[i - 7] == schedule(m, i - 7));
            assert(w@[i - 2] == schedule(m, i - 2));
        }
        w.push(next);
        i = i + 1;
    }
    let mut a = h[0];
    let mut b = h[1];
    let mut c = h[2];
    let mut d = h[3];
    let mut e = h[4];
    let mut f = h[5];
    let mut g = h[6];
    let mut hh = h[7];
    let mut t: usize = 0;
    while t < 64
        invariant
            t <= 64,
            h@.len() == 8,
            w@.len() == 64,
            k@ == sha256_constants(),
            forall|q: int| 0 <= q < 64 ==> w@[q] == #[trigger] schedule(m, q),
            sha256_rounds(state_of(h@), m, t as int) == (RoundState { a, b, c, d, e, f, g, h: hh }),
        decreases 64 - t,
    {
        let s1 = rotate_right(e, 6) ^ rotate_right(e, 11) ^ rotate_right(e, 25);
        let ch = (e & f) ^ ((!e) & g);
        let temp1 = hh.wrapping_add(s1).wrapping_add(ch).wrapping_add(k[t]).wrapping_add(w[t]);
        let s0 = rotate_right(a, 2) ^ rotate_right(a, 13) ^ rotate_right(a, 22);
        let maj = (a & b) ^ (a & c) ^ (b & c);
        let temp2 = s0.wrapping_add(maj);
        proof {
            assert(w@[t as int] == schedule(m, t as int));
        }
        hh = g;
        g = f;
        f = e;
        e = d.wrapping_add(temp1);
        d = c;
        c = b;
        b = a;
        a = temp1.wrapping_add(temp2);
        t = t + 1;
    }
    let r = vec![
        h[0].wrapping_add(a),
        h[1].wrapping_add(b),
        h[2].wrapping_add(c),
        h[3].wrapping_add(d),
        h[4].wrapping_add(e),
        h[5].wrapping_add(f),
        h[6].wrapping_add(g),
        h[7].wrapping_add(hh),
    ];
    proof {
        assert(r@ =~= compress(h@, m));
    }
    r
}

/// The SHA-256 digest of `input` (FIPS 180-4).
pub fn sha256(input: &[u8]) -> (r: Vec<u8>)
    requires
        input@.len() * 8 <= u64::MAX,
        input@.len() + 72 <= usize::MAX,
    ensures
        r@ == sha256_digest(input@),
{
    let data = pad_message(input);
    let k = sha256_constants_exec();
    let mut h: Vec<u32> = vec![
        0x6a09e667,
        0xbb67ae85,
        0x3c6ef372,
        0xa54ff53a,
        0x510e527f,
        0x9b05688c,
        0x1f83d9ab,
        0x5be0cd19,
    ];
    proof {
        assert(h@ =~= sha256_initial());
    }
    let blocks = data.len() / 64;
    let mut j: usize = 0;
    while j < blocks
        invariant
            j <= blocks,
            blocks == data@.len() / 64,
            data@.len() % 64 == 0,
            k@ == sha256_constants(),
            h@ == hash_blocks(data@, j as int),
            h@.len() == 8,
        decreases blocks - j,
    {
        assert(64 * j + 64 <= data@.len()) by (nonlinear_arith)
            requires
                j < blocks,
                blocks == data@.len() / 64,
                data@.len() % 64 == 0,
        ;
        h = compress_block(&h, &data, j, &k);
        j = j + 1;
    }
    let mut out: Vec<u8> = Vec::new();
    let mut i: usize = 0;
    while i < 8
        invariant
            i <= 8,
            h@.len() == 8,
            out@.len() == 4 * i,
            forall|q: int| 0 <= q < 4 * i ==> out@[q] == #[trigger] (be_u32_bytes(h@[q / 4])[q % 4]),
        decreases 8 - i,
    {
        let word = h[i];
        out.push((word >> 24u32) as u8);
        out.push((word >> 16u32) as u8);
        out.push((word >> 8u32) as u8);
        out.push(word as u8);
        proof {
            assert forall|q: int| 0 <= q < 4 * (i + 1) implies out@[q] == #[trigger] (be_u32_bytes(h@[q / 4])[q % 4]) by {
                if q >= 4 * i {
                    assert(q / 4 == i as int);
                }
            }
        }
        i = i + 1;
    }
    proof {
        let p = padded_message(input@);
        assert(out@ =~= sha256_digest(input@)) by {
            assert forall|q: int| 0 <= q < 32 implies out@[q] == #[trigger] sha256_digest(input@)[q] by {
                assert(out@[q] == be_u32_bytes(h@[q / 4])[q % 4]);
            }
        }
    }
    out
}


/// Each byte of `b` as two lower-case hexadecimal digits.
pub open spec fn hex_bytes(b: Seq<u8>) -> Seq<char>
    decreases b.len(),
{
    if b.len() == 0 {
        Seq::empty()
    } else {
        hex_bytes(b.drop_last()) + seq![hex_digit((b.last() / 16) as nat), hex_digit((b.last() % 16) as nat)]
    }
}

/// The SHA-256 digest of `bytes` in lower-case hexadecimal.
pub fn sha256_hex(bytes: &[u8]) -> (r: String)
    requires
        bytes@.len() * 8 <= u64::MAX,
        bytes@.len() + 72 <= usize::MAX,
    ensures
        r@ == hex_bytes(sha256_digest(bytes@)),
{
    let digest = sha256(bytes);
    let mut out = String::new();
    let mut i: usize = 0;
    while i < digest.len()
        invariant
            i <= digest@.len(),
            out@ == hex_bytes(digest@.subrange(0, i as int)),
        decreases digest@.len() - i,
    {
        let byte = digest[i];
        push_char(&mut out, hex_digit_exec((byte / 16) as u32));
        push_char(&mut out, hex_digit_exec((byte % 16) as u32));
        proof {
            assert(digest@.subrange(0, i + 1).drop_last() =~= digest@.subrange(0, i as int));
            assert(out@ =~= hex_bytes(digest@.subrange(0, i + 1)));
        }
        i = i + 1;
    }
    proof {
        assert(digest@.subrange(0, digest@.len() as int) =~= digest@);
    }
    out
}


// ---------------------------------------------------------------------------
// What the summary reads back of a record.
// ---------------------------------------------------------------------------

/// The line state of text without a line break: no finished line, and the
/// whole text unfinished.
proof fn lemma_line_state_unbroken(t: Seq<char>)
    requires
        forall|i: int| 0 <= i < t.len() ==> t[i] != '\n',
    ensures
        line_state(t) == (Seq::<Seq<char>>::empty(), t),
    decreases t.len(),
{
    if t.len() > 0 {
        lemma_line_state_unbroken(t.drop_last());
        assert(t.drop_last().push(t.last()) =~= t);
    }
}

/// After text whose last line is finished, the lines of what follows are
/// added as they are.
proof fn lemma_line_state_append(a: Seq<char>, b: Seq<char>)
    requires
        line_state(a).1.len() == 0,
    ensures
        line_state(a + b) == (line_state(a).0 + line_state(b).0, line_state(b).1),
    decreases b.len(),
{
    if b.len() == 0 {
        assert(a + b =~= a);
        assert(line_state(a).0 + Seq::<Seq<char>>::empty() =~= line_state(a).0);
        assert(line_state(a).1 =~= Seq::<char>::empty());
    } else {
        lemma_line_state_append(a, b.drop_last());
        assert((a + b).drop_last() =~= a + b.drop_last());
        assert((a + b).last() == b.last());
        let (done, current) = line_state(b.drop_last());
        if b.last() == '\n' {
            assert(line_state(a).0 + done.push(strip_cr(current)) =~= (line_state(a).0 + done).push(strip_cr(current)));
        }
    }
}

/// A line without a break that does not end in a carriage return, then a
/// line break, then more text: that line, then the lines of the rest.
proof fn lemma_lines_after_line(l: Seq<char>, rest: Seq<char>)
    requires
        forall|i: int| 0 <= i < l.len() ==> l[i] != '\n',
        l.len() == 0 || l.last() != '\r',
    ensures
        lines(l + seq!['\n'] + rest) == seq![l] + lines(rest),
{
    lemma_line_state_unbroken(l);
    let a = l + seq!['\n'];
    assert(a.drop_last() =~= l);
    assert(strip_cr(l) == l);
    assert(line_state(a) == (seq![l], Seq::<char>::empty()));
    lemma_line_state_append(a, rest);
    let (d, c) = line_state(rest);
    if c.len() > 0 {
        assert((seq![l] + d).push(c) =~= seq![l] + d.push(c));
    }
}

/// A hexadecimal digit is a printable ASCII character.
proof fn lemma_hex_digit_printable(d: nat)
    requires
        d < 16,
    ensures
        hex_digit(d) as int >= 0x30,
{
    if d < 10 {
        assert(((('0' as nat) + d) as char) as int == 48 + d);
    } else {
        assert(((('a' as nat) + (d - 10)) as char) as int == 97 + d - 10);
    }
}

/// JSON escaping never writes a line break.
proof fn lemma_json_chars_unbroken(t: Seq<char>)
    ensures
        forall|i: int| 0 <= i < json_chars(t).len() ==> json_chars(t)[i] != '\n',
    decreases t.len(),
{
    if t.len() > 0 {
        lemma_json_chars_unbroken(t.drop_last());
        let c = t.last();
        let prev = json_chars(t.drop_last());
        let tail = json_char(c);
        if (c as u32) < 0x20 && c != '"' && c != '\\' && c != '\n' && c != '\r' && c != '\t' {
            let d1 = ((c as u32) / 16) as nat;
            let d2 = ((c as u32) % 16) as nat;
            lemma_hex_digit_printable(d1);
            lemma_hex_digit_printable(d2);
        }
        assert(forall|i: int| 0 <= i < tail.len() ==> tail[i] != '\n');
        assert(json_chars(t) == prev + tail);
        assert forall|i: int| 0 <= i < json_chars(t).len() implies json_chars(t)[i] != '\n' by {
            if i < prev.len() {
                assert(json_chars(t)[i] == prev[i]);
            } else {
                assert(json_chars(t)[i] == tail[i - prev.len()]);
            }
        }
    }
}

/// Text that JSON string escaping leaves as it is.
pub open spec fn plain_json_text(t: Seq<char>) -> bool {
    forall|i: int| 0 <= i < t.len() ==> t[i] != '"' && t[i] != '\\' && (t[i] as u32) >= 0x20
}

proof fn lemma_plain_json_chars(t: Seq<char>)
    requires
        plain_json_text(t),
    ensures
        json_chars(t) == t,
    decreases t.len(),
{
    if t.len() > 0 {
        lemma_plain_json_chars(t.drop_last());
        assert(t.drop_last() + seq![t.last()] =~= t);
    }
}

/// The first colon of `t` from `from` on is at `k`.
proof fn lemma_first_colon(t: Seq<char>, from: int, k: int)
    requires
        0 <= from <= k < t.len(),
        t[k] == ':',
        forall|i: int| from <= i < k ==> t[i] != ':',
    ensures
        first_occurrence_from(t, seq![':'], from) == Some(k),
    decreases k - from,
{
    if from < k {
        assert(t.subrange(from, from + 1) != seq![':']) by {
            assert(t.subrange(from, from + 1)[0] == t[from]);
        }
        lemma_first_colon(t, from + 1, k);
    } else {
        assert(t.subrange(k, k + 1) =~= seq![':']);
    }
}


/// Two leading spaces go, and nothing more when what follows is no space.
proof fn lemma_trim_two_spaces(x: Seq<char>)
    requires
        x.len() > 0,
        !is_space(x[0]),
    ensures
        trim_start(seq![' ', ' '] + x) == x,
{
    let t = seq![' ', ' '] + x;
    let u = seq![' '] + x;
    assert(t.drop_first() =~= u);
    assert(u.drop_first() =~= x);
    assert(trim_start(x) == x);
    assert(trim_start(u) == trim_start(x));
    assert(trim_start(t) == trim_start(u));
}

/// A record line `  "key": value,` for a key without quotes or colons.
pub open spec fn record_line(key: Seq<char>, value: Seq<char>) -> Seq<char> {
    seq![' ', ' ', '"'] + key + seq!['"', ':', ' '] + value + seq![',']
}

/// A record line is not the line of a field whose name starts differently.
proof fn lemma_other_field_line(key: Seq<char>, value: Seq<char>, name: Seq<char>)
    requires
        key.len() > 0,
        name.len() > 0,
        key[0] != name[0],
    ensures
        !has_prefix(trim_start(record_line(key, value)), field_pattern(name)),
{
    let x = seq!['"'] + key + seq!['"', ':', ' '] + value + seq![','];
    assert(record_line(key, value) =~= seq![' ', ' '] + x);
    lemma_trim_two_spaces(x);
    if has_prefix(x, field_pattern(name)) {
        assert(x.subrange(0, field_pattern(name).len() as int)[1] == field_pattern(name)[1]);
    }
}

/// What the summary keeps of the text after a field's colon.
pub open spec fn extracted(rest: Seq<char>) -> Seq<char> {
    trim_end_char(trim_start_char(trim_end_char(trim(rest), ','), '"'), '"')
}

/// The value the summary reads from the record line of a field: what
/// follows the first colon, trimmed, without trailing commas and
/// surrounding quotes.
pub open spec fn line_value(line: Seq<char>) -> Option<Seq<char>> {
    match split_once(line, seq![':']) {
        Some((_, rest)) => Some(extracted(rest)),
        None => None,
    }
}

/// The record line of a field holds that field, and what follows its first
/// colon is a space, the value and a comma.
proof fn lemma_record_line_split(key: Seq<char>, value: Seq<char>)
    requires
        forall|i: int| 0 <= i < key.len() ==> key[i] != ':' && key[i] != '"',
    ensures
        has_prefix(trim_start(record_line(key, value)), field_pattern(key)),
        line_value(record_line(key, value)) == Some(extracted(seq![' '] + value + seq![','])),
{
    let line = record_line(key, value);
    let x = seq!['"'] + key + seq!['"', ':', ' '] + value + seq![','];
    assert(line =~= seq![' ', ' '] + x);
    lemma_trim_two_spaces(x);
    assert(x.subrange(0, field_pattern(key).len() as int) =~= field_pattern(key));
    let k: int = 4 + key.len() as int;
    assert(line[k] == ':');
    assert forall|i: int| 0 <= i < k implies line[i] != ':' by {
        if 3 <= i < 3 + key.len() {
            assert(line[i] == key[i - 3]);
        }
    }
    lemma_first_colon(line, 0, k);
    assert(line.subrange(k + 1, line.len() as int) =~= seq![' '] + value + seq![',']);
}

/// After the colon of a record line: a quoted plain value reads back as
/// itself.
proof fn lemma_extract_quoted(v: Seq<char>)
    requires
        plain_json_text(v),
    ensures
        extracted(seq![' '] + json_quoted(v) + seq![',']) == v,
{
    lemma_plain_json_chars(v);
    let value = json_quoted(v);
    assert(value =~= seq!['"'] + v + seq!['"']);
    let inner = value + seq![','];
    let rest = seq![' '] + inner;
    assert(seq![' '] + json_quoted(v) + seq![','] =~= rest);
    assert(rest.drop_first() =~= inner);
    assert(trim_start(inner) == inner);
    assert(trim_start(rest) == trim_start(inner));
    assert(trim_end(inner) == inner);
    assert(trim(rest) == inner);
    assert(inner.drop_last() =~= value);
    assert(trim_end_char(value, ',') == value);
    assert(trim_end_char(inner, ',') == trim_end_char(value, ','));
    assert(value.drop_first() =~= v + seq!['"']);
    assert(trim_start_char(value, '"') == trim_start_char(v + seq!['"'], '"'));
    if v.len() == 0 {
        assert(v + seq!['"'] =~= seq!['"']);
        assert(seq!['"'].drop_first() =~= Seq::<char>::empty());
        assert(trim_start_char(Seq::<char>::empty(), '"') == Seq::<char>::empty());
        assert(trim_start_char(seq!['"'], '"') == Seq::<char>::empty());
        assert(trim_end_char(Seq::<char>::empty(), '"') == Seq::<char>::empty());
    } else {
        assert((v + seq!['"'])[0] == v[0]);
        assert(trim_start_char(v + seq!['"'], '"') == v + seq!['"']);
        assert((v + seq!['"']).drop_last() =~= v);
        assert(trim_end_char(v, '"') == v);
        assert(trim_end_char(v + seq!['"'], '"') == trim_end_char(v, '"'));
    }
}

/// After the colon of a record line: a bare word reads back as itself.
proof fn lemma_extract_bare(v: Seq<char>)
    requires
        v.len() > 0,
        !is_space(v[0]),
        v.last() != ',',
        v.last() != '"',
        v[0] != '"',
    ensures
        extracted(seq![' '] + v + seq![',']) == v,
{
    let inner = v + seq![','];
    let rest = seq![' '] + inner;
    assert(seq![' '] + v + seq![','] =~= rest);
    assert(rest.drop_first() =~= inner);
    assert(inner[0] == v[0]);
    assert(trim_start(inner) == inner);
    assert(trim_start(rest) == trim_start(inner));
    assert(trim_end(inner) == inner);
    assert(trim(rest) == inner);
    assert(inner.drop_last() =~= v);
    assert(trim_end_char(v, ',') == v);
    assert(trim_end_char(inner, ',') == trim_end_char(v, ','));
    assert(trim_start_char(v, '"') == v);
    assert(trim_end_char(v, '"') == v);
}


/// A record line is a single line ending in a comma.
proof fn lemma_record_line_unbroken(key: Seq<char>, value: Seq<char>)
    requires
        forall|i: int| 0 <= i < key.len() ==> key[i] != '\n',
        forall|i: int| 0 <= i < value.len() ==> value[i] != '\n',
    ensures
        forall|i: int| 0 <= i < record_line(key, value).len() ==> record_line(key, value)[i] != '\n',
        record_line(key, value).last() == ',',
{
    let line = record_line(key, value);
    assert forall|i: int| 0 <= i < line.len() implies line[i] != '\n' by {
        if 3 <= i < 3 + key.len() {
            assert(line[i] == key[i - 3]);
        } else if 6 + key.len() <= i < 6 + key.len() + value.len() {
            assert(line[i] == value[i - 6 - key.len()]);
        }
    }
}

/// A quoted JSON string is a single line.
proof fn lemma_json_quoted_unbroken(t: Seq<char>)
    ensures
        forall|i: int| 0 <= i < json_quoted(t).len() ==> json_quoted(t)[i] != '\n',
{
    lemma_json_chars_unbroken(t);
    let q = json_quoted(t);
    assert forall|i: int| 0 <= i < q.len() implies q[i] != '\n' by {
        if 1 <= i < q.len() - 1 {
            assert(q[i] == json_chars(t)[i - 1]);
        }
    }
}

/// The summary of a record names the time it finished, its mode and whether
/// it passed.
pub open spec fn summary_of(finished: Seq<char>, mode: VerifyMode, passed: bool) -> Seq<char> {
    "finished="@ + finished + " mode="@ + mode_name(mode) + " passed="@ + if passed {
        "true"@
    } else {
        "false"@
    }
}

/// What follows the `passed` line of a validation record.
pub open spec fn record_tail(failure: Option<Seq<char>>, checks: Seq<CheckRecord>, artifacts: Seq<ArtifactRecord>) -> Seq<char> {
    failure_json(failure)
        + "  \"scope\": \"Debug native Vulkan wgpu execution of Slang-generated WGSL; SPIR-V export validation is separate.\",\n"@
        + "  \"untested\": [\"browser WebGPU\", \"Metal\", \"DXIL\", \"other GPU vendors\", \"declared minimum Rust version\"],\n"@
        + "  \"checks\": [\n"@ + join_all(checks_json(checks), ",\n"@) + "\n  ],\n"@ + "  \"spirv_artifacts\": [\n"@
        + join_all(artifacts_json(artifacts), ",\n"@) + "\n  ]\n}\n"@
}

/// `passed` as the record writes it.
pub open spec fn bool_text(b: bool) -> Seq<char> {
    if b {
        "true"@
    } else {
        "false"@
    }
}

/// The first six lines of a validation record, each followed by its line
/// break, then the rest.
pub open spec fn record_head(started: Seq<char>, finished: Seq<char>, name: Seq<char>, passed: bool, rest: Seq<char>) -> Seq<char> {
    let nl = seq!['\n'];
    seq!['{'] + nl + (record_line("schema_version"@, seq!['1']) + nl + (record_line(
        "started_utc"@,
        json_quoted(started),
    ) + nl + (record_line("finished_utc"@, json_quoted(finished)) + nl + (record_line(
        "mode"@,
        json_quoted(name),
    ) + nl + (record_line("passed"@, bool_text(passed)) + nl + rest)))))
}

pub open spec fn head_lines(started: Seq<char>, finished: Seq<char>, name: Seq<char>, passed: bool) -> Seq<Seq<char>> {
    seq![
        seq!['{'],
        record_line("schema_version"@, seq!['1']),
        record_line("started_utc"@, json_quoted(started)),
        record_line("finished_utc"@, json_quoted(finished)),
        record_line("mode"@, json_quoted(name)),
        record_line("passed"@, bool_text(passed)),
    ]
}

/// The literal opening lines of a record are its first two head lines.
proof fn lemma_opening_literals()
    ensures
        "{\n"@ == seq!['{'] + seq!['\n'],
        "  \"schema_version\": 1,\n"@ == record_line("schema_version"@, seq!['1']) + seq!['\n'],
{
    reveal_strlit("{\n");
    reveal_strlit("  \"schema_version\": 1,\n");
    reveal_strlit("schema_version");
    assert("{\n"@ =~= seq!['{'] + seq!['\n']);
    assert("  \"schema_version\": 1,\n"@ =~= record_line("schema_version"@, seq!['1']) + seq!['\n']);
}

/// A record's field line, as the record writes it, is the record line of
/// that field.
proof fn lemma_field_literals(value: Seq<char>)
    ensures
        "  \"started_utc\": "@ + value + ",\n"@ == record_line("started_utc"@, value) + seq!['\n'],
        "  \"finished_utc\": "@ + value + ",\n"@ == record_line("finished_utc"@, value) + seq!['\n'],
        "  \"mode\": "@ + value + ",\n"@ == record_line("mode"@, value) + seq!['\n'],
        "  \"passed\": "@ + value + ",\n"@ == record_line("passed"@, value) + seq!['\n'],
{
    reveal_strlit("  \"started_utc\": ");
    reveal_strlit("  \"finished_utc\": ");
    reveal_strlit("  \"mode\": ");
    reveal_strlit("  \"passed\": ");
    reveal_strlit(",\n");
    reveal_strlit("started_utc");
    reveal_strlit("finished_utc");
    reveal_strlit("mode");
    reveal_strlit("passed");
    assert("  \"started_utc\": "@ + value + ",\n"@ =~= record_line("started_utc"@, value) + seq!['\n']);
    assert("  \"finished_utc\": "@ + value + ",\n"@ =~= record_line("finished_utc"@, value) + seq!['\n']);
    assert("  \"mode\": "@ + value + ",\n"@ =~= record_line("mode"@, value) + seq!['\n']);
    assert("  \"passed\": "@ + value + ",\n"@ =~= record_line("passed"@, value) + seq!['\n']);
}

/// Regrouping a left-nested concatenation after its first part.
proof fn lemma_regroup_tail(
    p: Seq<char>,
    t1: Seq<char>,
    t2: Seq<char>,
    t3: Seq<char>,
    t4: Seq<char>,
    t5: Seq<char>,
    t6: Seq<char>,
    t7: Seq<char>,
    t8: Seq<char>,
    t9: Seq<char>,
)
    ensures
        p + t1 + t2 + t3 + t4 + t5 + t6 + t7 + t8 + t9 == p + (t1 + t2 + t3 + t4 + t5 + t6 + t7 + t8 + t9),
{
    assert(p + t1 + t2 + t3 + t4 + t5 + t6 + t7 + t8 + t9 =~= p + (t1 + t2 + t3 + t4 + t5 + t6 + t7 + t8 + t9));
}

/// Regrouping the head of a record into its lines.
proof fn lemma_regroup_head(
    a0: Seq<char>,
    a1: Seq<char>,
    s: Seq<char>,
    q1: Seq<char>,
    c: Seq<char>,
    f: Seq<char>,
    q2: Seq<char>,
    m: Seq<char>,
    q3: Seq<char>,
    pl: Seq<char>,
    q4: Seq<char>,
    rest: Seq<char>,
)
    ensures
        a0 + a1 + s + q1 + c + f + q2 + c + m + q3 + c + pl + q4 + c + rest == a0 + (a1 + ((s + q1 + c) + ((
        f + q2 + c) + ((m + q3 + c) + ((pl + q4 + c) + rest))))),
{
    assert(a0 + a1 + s + q1 + c + f + q2 + c + m + q3 + c + pl + q4 + c + rest =~= a0 + (a1 + ((s + q1 + c) + ((
    f + q2 + c) + ((m + q3 + c) + ((pl + q4 + c) + rest))))));
}

/// A validation record is its six head lines and then the rest.
proof fn lemma_record_shape(
    mode: VerifyMode,
    started: Seq<char>,
    finished: Seq<char>,
    failure: Option<Seq<char>>,
    checks: Seq<CheckRecord>,
    artifacts: Seq<ArtifactRecord>,
)
    ensures
        spec_validation_json(mode, started, finished, failure, checks, artifacts) == record_head(
            started,
            finished,
            mode_name(mode),
            failure is None,
            record_tail(failure, checks, artifacts),
        ),
{
    let name = mode_name(mode);
    let tf = bool_text(failure is None);
    let rest = record_tail(failure, checks, artifacts);
    let head = "{\n"@ + "  \"schema_version\": 1,\n"@ + "  \"started_utc\": "@ + json_quoted(started) + ",\n"@
        + "  \"finished_utc\": "@ + json_quoted(finished) + ",\n"@ + "  \"mode\": "@ + json_quoted(name) + ",\n"@
        + "  \"passed\": "@ + tf + ",\n"@;
    lemma_regroup_tail(
        head,
        failure_json(failure),
        "  \"scope\": \"Debug native Vulkan wgpu execution of Slang-generated WGSL; SPIR-V export validation is separate.\",\n"@,
        "  \"untested\": [\"browser WebGPU\", \"Metal\", \"DXIL\", \"other GPU vendors\", \"declared minimum Rust version\"],\n"@,
        "  \"checks\": [\n"@,
        join_all(checks_json(checks), ",\n"@),
        "\n  ],\n"@,
        "  \"spirv_artifacts\": [\n"@,
        join_all(artifacts_json(artifacts), ",\n"@),
        "\n  ]\n}\n"@,
    );
    assert(spec_validation_json(mode, started, finished, failure, checks, artifacts) == head + rest);
    lemma_regroup_head(
        "{\n"@,
        "  \"schema_version\": 1,\n"@,
        "  \"started_utc\": "@,
        json_quoted(started),
        ",\n"@,
        "  \"finished_utc\": "@,
        json_quoted(finished),
        "  \"mode\": "@,
        json_quoted(name),
        "  \"passed\": "@,
        tf,
        rest,
    );
    lemma_opening_literals();
    lemma_field_literals(json_quoted(started));
    lemma_field_literals(json_quoted(finished));
    lemma_field_literals(json_quoted(name));
    lemma_field_literals(tf);
}

/// The lines of a validation record start with its six head lines.
proof fn lemma_record_head_lines(started: Seq<char>, finished: Seq<char>, name: Seq<char>, passed: bool, rest: Seq<char>)
    requires
        forall|i: int| 0 <= i < bool_text(passed).len() ==> bool_text(passed)[i] != '\n',
    ensures
        lines(record_head(started, finished, name, passed, rest)) == head_lines(started, finished, name, passed)
            + lines(rest),
{
    reveal_strlit("schema_version");
    reveal_strlit("started_utc");
    reveal_strlit("finished_utc");
    reveal_strlit("mode");
    reveal_strlit("passed");
    let nl = seq!['\n'];
    let tf = bool_text(passed);
    let l0 = seq!['{'];
    let l1 = record_line("schema_version"@, seq!['1']);
    let l2 = record_line("started_utc"@, json_quoted(started));
    let l3 = record_line("finished_utc"@, json_quoted(finished));
    let l4 = record_line("mode"@, json_quoted(name));
    let l5 = record_line("passed"@, tf);
    let r5 = l5 + nl + rest;
    let r4 = l4 + nl + r5;
    let r3 = l3 + nl + r4;
    let r2 = l2 + nl + r3;
    let r1 = l1 + nl + r2;
    lemma_json_quoted_unbroken(started);
    lemma_json_quoted_unbroken(finished);
    lemma_json_quoted_unbroken(name);
    lemma_record_line_unbroken("schema_version"@, seq!['1']);
    lemma_record_line_unbroken("started_utc"@, json_quoted(started));
    lemma_record_line_unbroken("finished_utc"@, json_quoted(finished));
    lemma_record_line_unbroken("mode"@, json_quoted(name));
    lemma_record_line_unbroken("passed"@, tf);
    lemma_lines_after_line(l5, rest);
    lemma_lines_after_line(l4, r5);
    lemma_lines_after_line(l3, r4);
    lemma_lines_after_line(l2, r3);
    lemma_lines_after_line(l1, r2);
    lemma_lines_after_line(l0, r1);
    assert(lines(record_head(started, finished, name, passed, rest)) =~= head_lines(started, finished, name, passed)
        + lines(rest));
}

/// In text whose lines start with a record's head lines, the summary finds
/// the finishing time, the mode and the outcome there.
proof fn lemma_head_fields(text: Seq<char>, started: Seq<char>, finished: Seq<char>, name: Seq<char>, passed: bool)
    requires
        lines(text).len() >= 6,
        lines(text).subrange(0, 6) == head_lines(started, finished, name, passed),
        plain_json_text(finished),
        plain_json_text(name),
        name.len() > 0,
    ensures
        field_value(text, "finished_utc"@) == Some(finished),
        field_value(text, "mode"@) == Some(name),
        field_value(text, "passed"@) == Some(bool_text(passed)),
{
    reveal_strlit("schema_version");
    reveal_strlit("started_utc");
    reveal_strlit("finished_utc");
    reveal_strlit("mode");
    reveal_strlit("passed");
    reveal_strlit("true");
    reveal_strlit("false");
    let ls = lines(text);
    let h = head_lines(started, finished, name, passed);
    assert(ls[0] == h[0] && ls[1] == h[1] && ls[2] == h[2] && ls[3] == h[3] && ls[4] == h[4] && ls[5] == h[5]) by {
        assert(ls.subrange(0, 6)[0] == ls[0]);
        assert(ls.subrange(0, 6)[1] == ls[1]);
        assert(ls.subrange(0, 6)[2] == ls[2]);
        assert(ls.subrange(0, 6)[3] == ls[3]);
        assert(ls.subrange(0, 6)[4] == ls[4]);
        assert(ls.subrange(0, 6)[5] == ls[5]);
    }
    let tf = bool_text(passed);
    assert(trim_start(seq!['{']) == seq!['{']);
    lemma_record_line_split("finished_utc"@, json_quoted(finished));
    lemma_record_line_split("mode"@, json_quoted(name));
    lemma_record_line_split("passed"@, tf);
    lemma_other_field_line("schema_version"@, seq!['1'], "finished_utc"@);
    lemma_other_field_line("started_utc"@, json_quoted(started), "finished_utc"@);
    lemma_other_field_line("schema_version"@, seq!['1'], "mode"@);
    lemma_other_field_line("started_utc"@, json_quoted(started), "mode"@);
    lemma_other_field_line("finished_utc"@, json_quoted(finished), "mode"@);
    lemma_other_field_line("schema_version"@, seq!['1'], "passed"@);
    lemma_other_field_line("started_utc"@, json_quoted(started), "passed"@);
    lemma_other_field_line("finished_utc"@, json_quoted(finished), "passed"@);
    lemma_other_field_line("mode"@, json_quoted(name), "passed"@);
    assert(field_line_from(ls, "finished_utc"@, 3) == Some(3int));
    assert(field_line_from(ls, "finished_utc"@, 2) == Some(3int));
    assert(field_line_from(ls, "finished_utc"@, 1) == Some(3int));
    assert(field_line_from(ls, "finished_utc"@, 0) == Some(3int));
    assert(field_line_from(ls, "mode"@, 4) == Some(4int));
    assert(field_line_from(ls, "mode"@, 3) == Some(4int));
    assert(field_line_from(ls, "mode"@, 2) == Some(4int));
    assert(field_line_from(ls, "mode"@, 1) == Some(4int));
    assert(field_line_from(ls, "mode"@, 0) == Some(4int));
    assert(field_line_from(ls, "passed"@, 5) == Some(5int));
    assert(field_line_from(ls, "passed"@, 4) == Some(5int));
    assert(field_line_from(ls, "passed"@, 3) == Some(5int));
    assert(field_line_from(ls, "passed"@, 2) == Some(5int));
    assert(field_line_from(ls, "passed"@, 1) == Some(5int));
    assert(field_line_from(ls, "passed"@, 0) == Some(5int));
    lemma_extract_quoted(finished);
    lemma_extract_quoted(name);
    lemma_extract_bare(tf);
}

/// Mode names are plain non-empty text.
proof fn lemma_mode_name_plain(mode: VerifyMode)
    ensures
        plain_json_text(mode_name(mode)),
        mode_name(mode).len() > 0,
{
    reveal_strlit("smoke");
    reveal_strlit("fast");
    reveal_strlit("gpu");
    reveal_strlit("examples");
    reveal_strlit("artifacts");
    reveal_strlit("full");
}

/// `true` and `false` are single words.
proof fn lemma_bool_text_unbroken(b: bool)
    ensures
        forall|i: int| 0 <= i < bool_text(b).len() ==> bool_text(b)[i] != '\n',
{
    reveal_strlit("true");
    reveal_strlit("false");
}

/// The summary of a record whose head lines hold these values.
proof fn lemma_head_summary(started: Seq<char>, finished: Seq<char>, name: Seq<char>, passed: bool, rest: Seq<char>)
    requires
        plain_json_text(finished),
        plain_json_text(name),
        name.len() > 0,
    ensures
        spec_validation_summary(record_head(started, finished, name, passed, rest)) == "finished="@ + finished
            + " mode="@ + name + " passed="@ + bool_text(passed),
{
    lemma_bool_text_unbroken(passed);
    lemma_record_head_lines(started, finished, name, passed, rest);
    let text = record_head(started, finished, name, passed, rest);
    assert(lines(text).subrange(0, 6) =~= head_lines(started, finished, name, passed));
    lemma_head_fields(text, started, finished, name, passed);
}

/// The one-line summary that `status` prints reads back what `verify` wrote
/// into the validation record: the finishing time, the mode and whether the
/// run passed, for a finishing time that JSON escaping leaves unchanged.
pub proof fn lemma_summary_reads_the_record(
    mode: VerifyMode,
    started: Seq<char>,
    finished: Seq<char>,
    failure: Option<Seq<char>>,
    checks: Seq<CheckRecord>,
    artifacts: Seq<ArtifactRecord>,
)
    requires
        plain_json_text(finished),
    ensures
        spec_validation_summary(spec_validation_json(mode, started, finished, failure, checks, artifacts))
            == summary_of(finished, mode, failure is None),
{
    lemma_mode_name_plain(mode);
    lemma_record_shape(mode, started, finished, failure, checks, artifacts);
    lemma_head_summary(started, finished, mode_name(mode), failure is None, record_tail(failure, checks, artifacts));
}

} // verus!
