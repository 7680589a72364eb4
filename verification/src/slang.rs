//! The deciding half of the bridge to the external Slang compiler: target
//! names, the decoding of compiler artifacts, error reports, and the mapping
//! of compiler diagnostics back to the originating Rust kernel. Launching
//! `slangc` and the file system work around it belong to the host program.
use vstd::prelude::*;
use vstd::utf8::{decode_utf8, valid_utf8};
use crate::text::{
    chars_of, equals_at, find_first, find_last_char, find_last_separator, first_occurrence,
    has_prefix, last_path_component, lemma_first_occurrence_iff_contains, line_bounds, lines,
    parse_usize_at, parse_usize_digits, rsplit_once, split_once, starts_with_at, string_of,
    strip_prefix, trim, trim_bounds, trim_start, trim_start_bounds,
};
use crate::spirv::{validate_structure, spirv_structure_error, words_from_le_bytes};
use crate::text::{decimal, push_decimal};
use crate::tooling::path_texts;

verus! {

#[verifier::external_type_specification]
#[verifier::external_body]
pub struct ExIoError(std::io::Error);

#[verifier::external_type_specification]
#[verifier::external_body]
pub struct ExFromUtf8Error(std::string::FromUtf8Error);

#[derive(Clone, Copy, Debug, PartialEq, Eq, Structural)]
pub enum Target {
    Spirv,
    Wgsl,
}

impl Target {
    /// The `-target` name `slangc` knows this target by.
    pub fn slang_name(self) -> (r: &'static str)
        ensures
            r@ == (match self {
                Target::Spirv => "spirv"@,
                Target::Wgsl => "wgsl"@,
            }),
    {
        match self {
            Target::Spirv => "spirv",
            Target::Wgsl => "wgsl",
        }
    }

    /// The file extension of this target's artifact.
    pub fn extension(self) -> (r: &'static str)
        ensures
            r@ == (match self {
                Target::Spirv => "spv"@,
                Target::Wgsl => "wgsl"@,
            }),
    {
        match self {
            Target::Spirv => "spv",
            Target::Wgsl => "wgsl",
        }
    }

    /// The `Debug` spelling of this target.
    pub fn debug_name(self) -> (r: &'static str)
        ensures
            r@ == spec_target_debug_name(self),
    {
        match self {
            Target::Spirv => "Spirv",
            Target::Wgsl => "Wgsl",
        }
    }
}

pub open spec fn spec_target_debug_name(target: Target) -> Seq<char> {
    match target {
        Target::Spirv => "Spirv"@,
        Target::Wgsl => "Wgsl"@,
    }
}

#[derive(Debug)]
pub enum Error {
    CompilerNotFound,
    Io(std::io::Error),
    CompilationFailed { target: Target, diagnostics: String },
    InvalidSpirvLength(usize),
    InvalidSpirv(&'static str),
}

/// Decodes `String::from_utf8`: `Ok` exactly for valid UTF-8, holding the
/// decoded characters.
#[verifier::external_body]
fn string_from_utf8(bytes: Vec<u8>) -> (r: Result<String, std::string::FromUtf8Error>)
    ensures
        r is Ok <==> valid_utf8(bytes@),
        r matches Ok(s) ==> s@ == decode_utf8(bytes@),
{
    String::from_utf8(bytes)
}

/// `std::io::Error::new(ErrorKind::InvalidData, error)`.
#[verifier::external_body]
fn invalid_data(error: std::string::FromUtf8Error) -> std::io::Error {
    std::io::Error::new(std::io::ErrorKind::InvalidData, error)
}

/// The words of a SPIR-V artifact: its bytes read as little-endian words and
/// checked for format-level structure.
pub fn decode_spirv(bytes: &[u8]) -> (r: Result<Vec<u32>, Error>)
    ensures
        bytes@.len() % 4 != 0 ==> (r matches Err(Error::InvalidSpirvLength(n)) && n == bytes@.len()),
        bytes@.len() % 4 == 0 ==> match r {
            Ok(words) => words@ == words_from_le_bytes(bytes@)
                && spirv_structure_error(words@) is None,
            Err(Error::InvalidSpirv(reason)) => spirv_structure_error(words_from_le_bytes(bytes@))
                == Some(reason@),
            _ => false,
        },
{
    if bytes.len() % 4 != 0 {
        return Err(Error::InvalidSpirvLength(bytes.len()));
    }
    let mut words: Vec<u32> = Vec::new();
    let mut index: usize = 0;
    while index < bytes.len() / 4
        invariant
            bytes@.len() % 4 == 0,
            index <= bytes@.len() / 4,
            words@ == words_from_le_bytes(bytes@).subrange(0, index as int),
        decreases bytes@.len() / 4 - index,
    {
        let base = 4 * index;
        let word = (bytes[base] as u32) | ((bytes[base + 1] as u32) << 8u32)
            | ((bytes[base + 2] as u32) << 16u32) | ((bytes[base + 3] as u32) << 24u32);
        words.push(word);
        proof {
            assert(words@ =~= words_from_le_bytes(bytes@).subrange(0, index + 1));
        }
        index = index + 1;
    }
    proof {
        assert(words@ =~= words_from_le_bytes(bytes@));
    }
    match validate_structure(&words) {
        Ok(()) => Ok(words),
        Err(reason) => Err(Error::InvalidSpirv(reason)),
    }
}

/// The text of a WGSL artifact: its bytes as UTF-8, or an invalid-data I/O error.
pub fn decode_wgsl(bytes: Vec<u8>) -> (r: Result<String, Error>)
    ensures
        r is Ok <==> valid_utf8(bytes@),
        r matches Ok(s) ==> s@ == decode_utf8(bytes@),
        r matches Err(e) ==> e is Io,
{
    match string_from_utf8(bytes) {
        Ok(text) => Ok(text),
        Err(error) => Err(Error::Io(invalid_data(error))),
    }
}

/// The value of a positive decimal coordinate such as a line or column number.
pub open spec fn spec_positive_coordinate(value: Seq<char>) -> Option<int> {
    let t = trim(value);
    match parse_usize_digits(t) {
        Some(n) => if n > 0 { Some(n) } else { None },
        None => None,
    }
}

pub fn positive_coordinate_at(v: &[char], lo: usize, hi: usize) -> (r: Option<usize>)
    requires
        lo <= hi <= v@.len(),
    ensures
        match r {
            Some(n) => spec_positive_coordinate(v@.subrange(lo as int, hi as int)) == Some(n as int),
            None => spec_positive_coordinate(v@.subrange(lo as int, hi as int)) is None,
        },
{
    let (a, b) = trim_bounds(v, lo, hi);
    match parse_usize_at(v, a, b) {
        Some(n) => if n > 0 { Some(n) } else { None },
        None => None,
    }
}

/// A positive decimal coordinate, surrounding white space allowed.
pub fn positive_coordinate(value: &str) -> (r: Option<usize>)
    ensures
        match r {
            Some(n) => spec_positive_coordinate(value@) == Some(n as int),
            None => spec_positive_coordinate(value@) is None,
        },
{
    let v = chars_of(value);
    let r = positive_coordinate_at(&v, 0, v.len());
    proof {
        assert(v@.subrange(0, v@.len() as int) =~= value@);
    }
    r
}

pub open spec fn is_error_header(d: Seq<char>) -> bool {
    has_prefix(d, "error["@) || has_prefix(d, "error:"@)
}

pub open spec fn is_other_header(d: Seq<char>) -> bool {
    has_prefix(d, "warning["@) || has_prefix(d, "warning:"@) || has_prefix(d, "note:"@)
        || has_prefix(d, "help:"@)
}

/// Whether the diagnostic lines so far leave an error header in effect.
pub open spec fn next_error_header(d: Seq<char>, in_error: bool) -> bool {
    if is_error_header(d) {
        true
    } else if is_other_header(d) {
        false
    } else {
        in_error
    }
}

/// The source file a location names is the generated `kernel.slang`.
pub open spec fn names_kernel_file(path: Seq<char>) -> bool {
    last_path_component(path) == "kernel.slang"@
}

/// The line of an arrow location `path:line:column`, when it names the kernel file.
pub open spec fn arrow_line(location: Seq<char>) -> Option<int> {
    match rsplit_once(location, ':') {
        None => None,
        Some((path_line, column)) => match rsplit_once(path_line, ':') {
            None => None,
            Some((path, line)) => {
                if !names_kernel_file(path) || spec_positive_coordinate(column) is None {
                    None
                } else {
                    spec_positive_coordinate(line)
                }
            },
        },
    }
}

/// The line of a `line` or `line,column` position.
pub open spec fn position_line(position: Seq<char>) -> Option<int> {
    match first_occurrence(position, seq![',']) {
        None => spec_positive_coordinate(position),
        Some(i) => {
            let rest = position.subrange(i + 1, position.len() as int);
            if spec_positive_coordinate(position.subrange(0, i)) is None
                || spec_positive_coordinate(rest) is None
                || first_occurrence(rest, seq![',']) is Some {
                None
            } else {
                spec_positive_coordinate(position.subrange(0, i))
            }
        },
    }
}

/// The line of a classic `path(line[,column]): [fatal ]error...` diagnostic
/// that names the kernel file.
pub open spec fn classic_line(d: Seq<char>) -> Option<int> {
    match split_once(trim(d), "):"@) {
        None => None,
        Some((location, message)) => {
            let m = trim_start(message);
            let m = match strip_prefix(m, "fatal "@) {
                Some(rest) => rest,
                None => m,
            };
            if !has_prefix(m, "error:"@) && !has_prefix(m, "error "@) {
                None
            } else {
                match rsplit_once(location, '(') {
                    None => None,
                    Some((path, position)) => if !names_kernel_file(path) {
                        None
                    } else {
                        position_line(position)
                    },
                }
            }
        },
    }
}

/// What one trimmed diagnostic line reports, given whether an error header is in effect.
pub open spec fn diagnostic_line_verdict(d: Seq<char>, in_error: bool) -> Option<int> {
    if in_error && strip_prefix(d, "--> "@) is Some {
        arrow_line(strip_prefix(d, "--> "@)->0)
    } else {
        classic_line(d)
    }
}

/// The first kernel-file line that an error diagnostic among `ls[i..]` reports.
pub open spec fn slang_line_from(ls: Seq<Seq<char>>, i: int, in_error: bool) -> Option<int>
    decreases ls.len() - i,
{
    if i < 0 || i >= ls.len() {
        None
    } else {
        let d = trim(ls[i]);
        let e = next_error_header(d, in_error);
        match diagnostic_line_verdict(d, e) {
            Some(n) => Some(n),
            None => slang_line_from(ls, i + 1, e),
        }
    }
}

/// The line of the generated kernel file that a compiler error reports.
pub open spec fn spec_parse_slang_line(diagnostic: Seq<char>) -> Option<int> {
    slang_line_from(lines(diagnostic), 0, false)
}

/// The kernel that a `// @rust kernel: ` marker line names: `Some(k)` for a
/// marker line (`k` empty when the name is blank), `None` otherwise.
pub open spec fn marker_kernel(line: Seq<char>) -> Option<Option<Seq<char>>> {
    match strip_prefix(trim(line), "// @rust kernel: "@) {
        Some(name) => Some(if trim(name).len() > 0 { Some(trim(name)) } else { None }),
        None => None,
    }
}

/// The kernel named by the last marker among the first `n` lines.
pub open spec fn kernel_before(ls: Seq<Seq<char>>, n: int) -> Option<Seq<char>>
    decreases n,
{
    if n <= 0 || n > ls.len() {
        None
    } else {
        match marker_kernel(ls[n - 1]) {
            Some(k) => k,
            None => kernel_before(ls, n - 1),
        }
    }
}

/// The Rust kernel that generated the source line a compiler error reports.
pub open spec fn spec_map_slang_diagnostic(source: Seq<char>, diagnostic: Seq<char>) -> Option<Seq<char>> {
    match spec_parse_slang_line(diagnostic) {
        None => None,
        Some(line) => if line > lines(source).len() {
            None
        } else {
            kernel_before(lines(source), line)
        },
    }
}

fn arrow_line_at(v: &[char], lo: usize, hi: usize) -> (r: Option<usize>)
    requires
        lo <= hi <= v@.len(),
    ensures
        match r {
            Some(n) => arrow_line(v@.subrange(lo as int, hi as int)) == Some(n as int),
            None => arrow_line(v@.subrange(lo as int, hi as int)) is None,
        },
{
    let ghost t = v@.subrange(lo as int, hi as int);
    let colon = match find_last_char(v, lo, hi, ':') {
        None => return None,
        Some(i) => lo + i,
    };
    let ghost path_line = v@.subrange(lo as int, colon as int);
    proof {
        assert(t.subrange(0, colon - lo) =~= path_line);
        assert(t.subrange(colon - lo + 1, t.len() as int) =~= v@.subrange(colon + 1, hi as int));
    }
    let colon2 = match find_last_char(v, lo, colon, ':') {
        None => return None,
        Some(i) => lo + i,
    };
    proof {
        assert(path_line.subrange(0, colon2 - lo) =~= v@.subrange(lo as int, colon2 as int));
        assert(path_line.subrange(colon2 - lo + 1, path_line.len() as int) =~= v@.subrange(colon2 + 1, colon as int));
    }
    if !names_kernel_file_at(v, lo, colon2) {
        return None;
    }
    if positive_coordinate_at(v, colon + 1, hi).is_none() {
        return None;
    }
    positive_coordinate_at(v, colon2 + 1, colon)
}

fn names_kernel_file_at(v: &[char], lo: usize, hi: usize) -> (r: bool)
    requires
        lo <= hi <= v@.len(),
    ensures
        r == names_kernel_file(v@.subrange(lo as int, hi as int)),
{
    let kernel_file = chars_of("kernel.slang");
    proof {
        reveal_strlit("kernel.slang");
    }
    match find_last_separator(v, lo, hi) {
        Some(i) => {
            let r = equals_at(v, lo + i + 1, hi, &kernel_file);
            proof {
                let t = v@.subrange(lo as int, hi as int);
                assert(t.subrange(i + 1, t.len() as int) =~= v@.subrange(lo + i + 1, hi as int));
            }
            r
        },
        None => equals_at(v, lo, hi, &kernel_file),
    }
}

fn position_line_at(v: &[char], lo: usize, hi: usize) -> (r: Option<usize>)
    requires
        lo <= hi <= v@.len(),
    ensures
        match r {
            Some(n) => position_line(v@.subrange(lo as int, hi as int)) == Some(n as int),
            None => position_line(v@.subrange(lo as int, hi as int)) is None,
        },
{
    let comma = [','];
    proof {
        assert(comma@ =~= seq![',']);
    }
    let ghost t = v@.subrange(lo as int, hi as int);
    match find_first(v, lo, hi, &comma) {
        None => positive_coordinate_at(v, lo, hi),
        Some(i) => {
            let split = lo + i;
            proof {
                lemma_first_occurrence_iff_contains(t, seq![','], 0);
                assert(t.subrange(0, i as int) =~= v@.subrange(lo as int, split as int));
                assert(t.subrange(i + 1, t.len() as int) =~= v@.subrange(split + 1, hi as int));
            }
            let line = positive_coordinate_at(v, lo, split);
            if line.is_none() {
                return None;
            }
            if positive_coordinate_at(v, split + 1, hi).is_none() {
                return None;
            }
            if find_first(v, split + 1, hi, &comma).is_some() {
                return None;
            }
            line
        },
    }
}

fn classic_line_at(v: &[char], lo: usize, hi: usize) -> (r: Option<usize>)
    requires
        lo <= hi <= v@.len(),
    ensures
        match r {
            Some(n) => classic_line(v@.subrange(lo as int, hi as int)) == Some(n as int),
            None => classic_line(v@.subrange(lo as int, hi as int)) is None,
        },
{
    let (a, b) = trim_bounds(v, lo, hi);
    let ghost d = v@.subrange(a as int, b as int);
    let separator = chars_of("):");
    proof {
        reveal_strlit("):");
    }
    let i = match find_first(v, a, b, &separator) {
        None => return None,
        Some(i) => i,
    };
    proof {
        lemma_first_occurrence_iff_contains(d, "):"@, 0);
    }
    let split = a + i;
    let message_start = split + 2;
    proof {
        assert(d.subrange(0, i as int) =~= v@.subrange(a as int, split as int));
        assert(d.subrange(i + 2, d.len() as int) =~= v@.subrange(message_start as int, b as int));
    }
    let m0 = trim_start_bounds(v, message_start, b);
    let fatal = chars_of("fatal ");
    proof {
        reveal_strlit("fatal ");
    }
    let m = if starts_with_at(v, m0, b, &fatal) {
        proof {
            assert(v@.subrange(m0 as int, b as int).subrange(6, b - m0) =~= v@.subrange(m0 + 6, b as int));
        }
        m0 + 6
    } else {
        m0
    };
    let error_colon = chars_of("error:");
    proof {
        reveal_strlit("error:");
    }
    let error_space = chars_of("error ");
    proof {
        reveal_strlit("error ");
    }
    if !starts_with_at(v, m, b, &error_colon) && !starts_with_at(v, m, b, &error_space) {
        return None;
    }
    let open = match find_last_char(v, a, split, '(') {
        None => return None,
        Some(j) => a + j,
    };
    proof {
        let location = v@.subrange(a as int, split as int);
        assert(location.subrange(0, open - a) =~= v@.subrange(a as int, open as int));
        assert(location.subrange(open - a + 1, location.len() as int) =~= v@.subrange(open + 1, split as int));
    }
    if !names_kernel_file_at(v, a, open) {
        return None;
    }
    position_line_at(v, open + 1, split)
}

fn diagnostic_line_verdict_at(v: &[char], lo: usize, hi: usize, in_error: bool) -> (r: Option<usize>)
    requires
        lo <= hi <= v@.len(),
    ensures
        match r {
            Some(n) => diagnostic_line_verdict(v@.subrange(lo as int, hi as int), in_error) == Some(n as int),
            None => diagnostic_line_verdict(v@.subrange(lo as int, hi as int), in_error) is None,
        },
{
    let arrow = chars_of("--> ");
    proof {
        reveal_strlit("--> ");
    }
    if in_error && starts_with_at(v, lo, hi, &arrow) {
        proof {
            assert(v@.subrange(lo as int, hi as int).subrange(4, hi - lo) =~= v@.subrange(lo + 4, hi as int));
        }
        arrow_line_at(v, lo + 4, hi)
    } else {
        classic_line_at(v, lo, hi)
    }
}

fn next_error_header_at(v: &[char], lo: usize, hi: usize, in_error: bool) -> (r: bool)
    requires
        lo <= hi <= v@.len(),
    ensures
        r == next_error_header(v@.subrange(lo as int, hi as int), in_error),
{
    let e1 = chars_of("error[");
    proof {
        reveal_strlit("error[");
    }
    let e2 = chars_of("error:");
    if starts_with_at(v, lo, hi, &e1) || starts_with_at(v, lo, hi, &e2) {
        return true;
    }
    let w1 = chars_of("warning[");
    proof {
        reveal_strlit("warning[");
    }
    let w2 = chars_of("warning:");
    proof {
        reveal_strlit("warning:");
    }
    let n = chars_of("note:");
    proof {
        reveal_strlit("note:");
    }
    let h = chars_of("help:");
    proof {
        reveal_strlit("help:");
    }
    if starts_with_at(v, lo, hi, &w1) || starts_with_at(v, lo, hi, &w2) || starts_with_at(v, lo, hi, &n)
        || starts_with_at(v, lo, hi, &h) {
        return false;
    }
    in_error
}

/// Select an error in this compilation unit, not an earlier warning or a
/// filename that merely ends with `kernel.slang`. Both `(line)` and
/// `(line,column)` occur in compiler diagnostics, as does the arrow form that
/// follows an `error[..]` header. Unrecognized locations remain unmapped.
pub fn parse_slang_line(diagnostic: &str) -> (r: Option<usize>)
    ensures
        match r {
            Some(n) => spec_parse_slang_line(diagnostic@) == Some(n as int),
            None => spec_parse_slang_line(diagnostic@) is None,
        },
{
    let v = chars_of(diagnostic);
    let bounds = line_bounds(&v);
    let ghost ls = lines(v@);
    let mut in_error = false;
    let mut i: usize = 0;
    while i < bounds.len()
        invariant
            i <= bounds@.len(),
            ls == lines(v@),
            v@ == diagnostic@,
            bounds@.len() == ls.len(),
            forall|k: int| 0 <= k < bounds@.len() ==> (#[trigger] bounds@[k]).0 <= bounds@[k].1 <= v@.len(),
            forall|k: int| 0 <= k < bounds@.len() ==> #[trigger] v@.subrange(bounds@[k].0 as int, bounds@[k].1 as int) == ls[k],
            spec_parse_slang_line(diagnostic@) == slang_line_from(ls, i as int, in_error),
        decreases bounds@.len() - i,
    {
        let (lo, hi) = bounds[i];
        proof {
            assert(v@.subrange(bounds@[i as int].0 as int, bounds@[i as int].1 as int) == ls[i as int]);
        }
        let (a, b) = trim_bounds(&v, lo, hi);
        let next = next_error_header_at(&v, a, b, in_error);
        match diagnostic_line_verdict_at(&v, a, b, next) {
            Some(n) => {
                return Some(n);
            },
            None => {},
        }
        in_error = next;
        i = i + 1;
    }
    None
}

pub(crate) fn marker_kernel_at(v: &[char], lo: usize, hi: usize) -> (r: Option<Option<(usize, usize)>>)
    requires
        lo <= hi <= v@.len(),
    ensures
        match r {
            None => marker_kernel(v@.subrange(lo as int, hi as int)) is None,
            Some(None) => marker_kernel(v@.subrange(lo as int, hi as int)) == Some(None::<Seq<char>>),
            Some(Some((a, b))) => a <= b <= v@.len()
                && marker_kernel(v@.subrange(lo as int, hi as int)) == Some(Some(v@.subrange(a as int, b as int))),
        },
{
    let (a, b) = trim_bounds(v, lo, hi);
    let marker = chars_of("// @rust kernel: ");
    proof {
        reveal_strlit("// @rust kernel: ");
    }
    if !starts_with_at(v, a, b, &marker) {
        return None;
    }
    let start = a + marker.len();
    proof {
        assert(v@.subrange(a as int, b as int).subrange(marker@.len() as int, b - a) =~= v@.subrange(start as int, b as int));
    }
    let (na, nb) = trim_bounds(v, start, b);
    if na < nb {
        Some(Some((na, nb)))
    } else {
        Some(None)
    }
}

/// Map a `slangc` diagnostic back to the originating Rust kernel name by
/// looking up the nearest `// @rust kernel:` marker at or before the reported
/// line.
pub fn map_slang_diagnostic(slang_source: &str, diagnostic: &str) -> (r: Option<String>)
    ensures
        match r {
            Some(k) => spec_map_slang_diagnostic(slang_source@, diagnostic@) == Some(k@),
            None => spec_map_slang_diagnostic(slang_source@, diagnostic@) is None,
        },
{
    let target_line = match parse_slang_line(diagnostic) {
        None => return None,
        Some(n) => n,
    };
    let v = chars_of(slang_source);
    let bounds = line_bounds(&v);
    let ghost ls = lines(v@);
    if target_line > bounds.len() {
        return None;
    }
    let mut kernel: Option<(usize, usize)> = None;
    let mut i: usize = 0;
    while i < target_line
        invariant
            i <= target_line <= bounds@.len(),
            ls == lines(v@),
            v@ == slang_source@,
            bounds@.len() == ls.len(),
            forall|k: int| 0 <= k < bounds@.len() ==> (#[trigger] bounds@[k]).0 <= bounds@[k].1 <= v@.len(),
            forall|k: int| 0 <= k < bounds@.len() ==> #[trigger] v@.subrange(bounds@[k].0 as int, bounds@[k].1 as int) == ls[k],
            match kernel {
                None => kernel_before(ls, i as int) is None,
                Some((a, b)) => a <= b <= v@.len() && kernel_before(ls, i as int) == Some(v@.subrange(a as int, b as int)),
            },
        decreases target_line - i,
    {
        let (lo, hi) = bounds[i];
        proof {
            assert(v@.subrange(bounds@[i as int].0 as int, bounds@[i as int].1 as int) == ls[i as int]);
        }
        match marker_kernel_at(&v, lo, hi) {
            None => {},
            Some(found) => {
                kernel = found;
            },
        }
        i = i + 1;
    }
    match kernel {
        None => None,
        Some((a, b)) => Some(string_of(&v, a, b)),
    }
}

} // verus!

verus! {

/// The text of an I/O error, as its `Display` renders it.
#[verifier::external_body]
fn io_error_text(error: &std::io::Error) -> String {
    error.to_string()
}

/// The trimmed characters of a string.
pub fn trimmed(s: &str) -> (r: String)
    ensures
        r@ == trim(s@),
{
    let v = chars_of(s);
    let (a, b) = trim_bounds(&v, 0, v.len());
    proof {
        assert(v@.subrange(0, v@.len() as int) =~= s@);
    }
    string_of(&v, a, b)
}

/// `m` is the report of `e`; for an I/O error, the report starts with the
/// fixed prefix and continues with the I/O error's own text.
pub open spec fn is_message(e: &Error, m: Seq<char>) -> bool {
    match e {
        Error::CompilerNotFound => m
            == "could not launch `slangc`; install Slang and make slangc available on PATH"@,
        Error::Io(_) => has_prefix(m, "Slang artifact I/O failed: "@),
        Error::CompilationFailed { target, diagnostics } => m == "Slang failed to compile the "@
            + spec_target_debug_name(*target) + " target:\n"@ + trim(diagnostics@),
        Error::InvalidSpirvLength(n) => m == "Slang returned a "@ + crate::text::decimal(*n as nat)
            + "-byte SPIR-V artifact"@,
        Error::InvalidSpirv(reason) => m == "Slang returned invalid SPIR-V: "@ + reason@,
    }
}

impl Error {
    /// The human-readable report of this error.
    pub fn message(&self) -> (r: String)
        ensures
            is_message(self, r@),
    {
        match self {
            Error::CompilerNotFound => String::from_str(
                "could not launch `slangc`; install Slang and make slangc available on PATH",
            ),
            Error::Io(error) => {
                let mut out = String::from_str("Slang artifact I/O failed: ");
                let detail = io_error_text(error);
                let ghost before = out@;
                out.append(detail.as_str());
                proof {
                    reveal_strlit("Slang artifact I/O failed: ");
                    assert(out@.subrange(0, before.len() as int) =~= before);
                }
                out
            },
            Error::CompilationFailed { target, diagnostics } => {
                let mut out = String::from_str("Slang failed to compile the ");
                out.append(target.debug_name());
                out.append(" target:\n");
                let body = trimmed(diagnostics.as_str());
                out.append(body.as_str());
                out
            },
            Error::InvalidSpirvLength(n) => {
                let mut out = String::from_str("Slang returned a ");
                crate::text::push_decimal(&mut out, *n as u64);
                out.append("-byte SPIR-V artifact");
                out
            },
            Error::InvalidSpirv(reason) => {
                let mut out = String::from_str("Slang returned invalid SPIR-V: ");
                out.append(reason);
                out
            },
        }
    }
}

/// The report of a failed `slangc` run: its standard error, standard output
/// and exit status, followed by the originating Rust kernel when a compiler
/// error maps back to one.
pub open spec fn spec_compiler_diagnostics(
    source: Seq<char>,
    stderr: Seq<char>,
    stdout: Seq<char>,
    exit: Seq<char>,
) -> Seq<char> {
    let diagnostics = stderr + "\n"@ + stdout + "\ncompiler exit: "@ + exit;
    match spec_map_slang_diagnostic(source, diagnostics) {
        Some(kernel) => diagnostics + "\noriginating Rust kernel: "@ + kernel,
        None => diagnostics,
    }
}

/// The error for a `slangc` run on `source` that exited unsuccessfully.
pub fn compilation_failure(source: &str, target: Target, stderr: &str, stdout: &str, exit: &str) -> (r: Error)
    ensures
        r matches Error::CompilationFailed { target: t, diagnostics }
            && t == target
            && diagnostics@ == spec_compiler_diagnostics(source@, stderr@, stdout@, exit@),
{
    let mut diagnostics = String::from_str(stderr);
    diagnostics.append("\n");
    diagnostics.append(stdout);
    diagnostics.append("\ncompiler exit: ");
    diagnostics.append(exit);
    let diagnostics = match map_slang_diagnostic(source, diagnostics.as_str()) {
        Some(kernel) => {
            let mut mapped = diagnostics;
            mapped.append("\noriginating Rust kernel: ");
            mapped.append(kernel.as_str());
            mapped
        },
        None => diagnostics,
    };
    Error::CompilationFailed { target, diagnostics }
}

/// Machine-readable record of whether the installed Slang compiler can emit a
/// target. Capability claims must follow this evidence, not assumption.
#[derive(Clone, Debug)]
pub struct TargetProbe {
    /// The probed target.
    pub target: Target,
    /// Whether `slangc` compiled the known-good probe kernel to this target.
    pub supported: bool,
    /// Evidence: a success marker, or the compiler diagnostic on failure.
    pub detail: String,
}

/// A minimal, known-good compute kernel used only to probe target capability.
pub const PROBE_KERNEL: &'static str = "[shader(\"compute\")]\n[numthreads(1, 1, 1)]\nvoid gpu_probe_entry(uint3 id : SV_DispatchThreadID) {}\n";

/// The entry point of `PROBE_KERNEL`.
pub const PROBE_ENTRY: &'static str = "gpu_probe_entry";

/// The capability record for one compilation of the probe kernel.
pub fn probe_report(target: Target, outcome: Result<Vec<u8>, Error>) -> (r: TargetProbe)
    ensures
        r.target == target,
        r.supported == outcome is Ok,
        outcome is Ok ==> r.detail@ == "compiled"@,
        outcome matches Err(e) ==> is_message(&e, r.detail@),
{
    match outcome {
        Ok(_) => TargetProbe { target, supported: true, detail: String::from_str("compiled") },
        Err(error) => TargetProbe { target, supported: false, detail: error.message() },
    }
}


/// The arguments of `slangc` that compile the source file at `source_path`
/// for `target` with entry point `entry` into `output_path`; SPIR-V keeps
/// the entry point's own name.
pub open spec fn spec_slangc_arguments(source_path: Seq<char>, target: Target, entry: Seq<char>, output_path: Seq<char>) -> Seq<Seq<char>> {
    seq![
        source_path,
        "-target"@,
        match target {
            Target::Spirv => "spirv"@,
            Target::Wgsl => "wgsl"@,
        },
        "-entry"@,
        entry,
        "-stage"@,
        "compute"@,
    ] + (if target == Target::Spirv {
        seq!["-fvk-use-entrypoint-name"@]
    } else {
        Seq::empty()
    }) + seq!["-o"@, output_path]
}

/// Appends `s` as a new string.
fn push_text(v: &mut Vec<String>, s: &str)
    ensures
        path_texts(final(v)@) == path_texts(old(v)@).push(s@),
{
    v.push(String::from_str(s));
    proof {
        assert(path_texts(v@) =~= path_texts(old(v)@).push(s@));
    }
}

/// The arguments of one `slangc` compilation.
pub fn slangc_arguments(source_path: &str, target: Target, entry: &str, output_path: &str) -> (r: Vec<String>)
    ensures
        path_texts(r@) == spec_slangc_arguments(source_path@, target, entry@, output_path@),
{
    let mut r: Vec<String> = Vec::new();
    proof {
        assert(path_texts(r@) =~= Seq::<Seq<char>>::empty());
    }
    push_text(&mut r, source_path);
    push_text(&mut r, "-target");
    push_text(&mut r, target.slang_name());
    push_text(&mut r, "-entry");
    push_text(&mut r, entry);
    push_text(&mut r, "-stage");
    push_text(&mut r, "compute");
    let ghost head = path_texts(r@);
    if target == Target::Spirv {
        push_text(&mut r, "-fvk-use-entrypoint-name");
    }
    proof {
        assert(path_texts(r@) =~= head + (if target == Target::Spirv {
            seq!["-fvk-use-entrypoint-name"@]
        } else {
            Seq::empty()
        }));
    }
    push_text(&mut r, "-o");
    push_text(&mut r, output_path);
    proof {
        assert(path_texts(r@) =~= spec_slangc_arguments(source_path@, target, entry@, output_path@));
    }
    r
}

/// How many fresh names a temporary compilation directory is tried under.
pub const TEMPORARY_DIRECTORY_ATTEMPTS: u32 = 128;

/// The name of the temporary directory of one compilation, unique to the
/// process and the invocation.
pub fn temporary_directory_name(process: u32, invocation: u64) -> (r: String)
    ensures
        r@ == "gpu-dialect-slang-"@ + decimal(process as nat) + "-"@ + decimal(invocation as nat),
{
    let mut r = String::from_str("gpu-dialect-slang-");
    push_decimal(&mut r, process as u64);
    r.append("-");
    push_decimal(&mut r, invocation);
    proof {
        assert(r@ =~= "gpu-dialect-slang-"@ + decimal(process as nat) + "-"@ + decimal(invocation as nat));
    }
    r
}


/// The arguments of `slangc` that also write Slang's reflection JSON to
/// `json_path`.
pub open spec fn spec_reflection_arguments(
    source_path: Seq<char>,
    target: Target,
    entry: Seq<char>,
    json_path: Seq<char>,
    output_path: Seq<char>,
) -> Seq<Seq<char>> {
    spec_slangc_arguments(source_path, target, entry, output_path).subrange(
        0,
        spec_slangc_arguments(source_path, target, entry, output_path).len() - 2,
    ) + seq!["-reflection-json"@, json_path, "-o"@, output_path]
}

/// The arguments of one `slangc` compilation that also reflects the kernel.
pub fn reflection_arguments(source_path: &str, target: Target, entry: &str, json_path: &str, output_path: &str) -> (r: Vec<String>)
    ensures
        path_texts(r@) == spec_reflection_arguments(source_path@, target, entry@, json_path@, output_path@),
{
    let mut r = slangc_arguments(source_path, target, entry, output_path);
    let ghost full = path_texts(r@);
    r.pop();
    r.pop();
    proof {
        assert(path_texts(r@) =~= full.subrange(0, full.len() - 2));
    }
    push_text(&mut r, "-reflection-json");
    push_text(&mut r, json_path);
    push_text(&mut r, "-o");
    push_text(&mut r, output_path);
    proof {
        assert(path_texts(r@) =~= spec_reflection_arguments(source_path@, target, entry@, json_path@, output_path@));
    }
    r
}

} // verus!
