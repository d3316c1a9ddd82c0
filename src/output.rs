//! Output planning: sink paths, which sinks are real, compression threads,
//! the writer strategy and the files to remove after a run.
use vstd::prelude::*;
use crate::encode::OutputFormat;
use crate::filter::{selects, FilterOptions};
use crate::text::decimal;

verus! {

/// Compression applied to every output sink.
#[derive(Debug, Clone, Copy, PartialEq, Eq, Structural)]
pub enum Compression {
    Uncompressed,
    Gzip,
    Bgzip,
    Zstd,
}

impl Compression {
    /// File extension that the compression adds, if any.
    pub fn ext(&self) -> (r: Option<&'static str>)
        ensures
            match self {
                Compression::Uncompressed => r is None,
                Compression::Gzip => r is Some && r->Some_0@ == "gz"@,
                Compression::Bgzip => r is Some && r->Some_0@ == "bgz"@,
                Compression::Zstd => r is Some && r->Some_0@ == "zst"@,
            },
    {
        match self {
            Compression::Uncompressed => None,
            Compression::Gzip => Some("gz"),
            Compression::Bgzip => Some("bgz"),
            Compression::Zstd => Some("zst"),
        }
    }
}

/// Where a sink writes.
#[derive(Debug, Clone, Copy, PartialEq, Eq)]
pub enum OutputFileType<'a> {
    RegularFile(&'a str),
    NamedPipe(&'a str),
    StdOut,
}

/// The name that a sink target stands for.
pub open spec fn target_name(o: OutputFileType) -> Seq<char> {
    match o {
        OutputFileType::RegularFile(p) => p@,
        OutputFileType::NamedPipe(p) => p@,
        OutputFileType::StdOut => "stdout"@,
    }
}

impl<'a> OutputFileType<'a> {
    /// The path of the sink, or `stdout`.
    pub fn name(&self) -> (r: &'a str)
        ensures
            r@ == target_name(*self),
    {
        match self {
            OutputFileType::RegularFile(p) => p,
            OutputFileType::NamedPipe(p) => p,
            OutputFileType::StdOut => "stdout",
        }
    }

    /// Separator between the output name and a segment file's name: a path
    /// separator for regular files, a dot for named pipes.
    pub fn sep(&self) -> (r: &'static str)
        requires
            !(*self is StdOut),
        ensures
            *self is RegularFile ==> r@ == "/"@,
            *self is NamedPipe ==> r@ == "."@,
    {
        match self {
            OutputFileType::RegularFile(_) => "/",
            OutputFileType::NamedPipe(_) => ".",
            OutputFileType::StdOut => ".",
        }
    }
}

/// The decimal digits of `n` as characters.
pub open spec fn decimal_chars(n: nat) -> Seq<char> {
    Seq::new(decimal(n).len(), |i: int| decimal(n)[i] as char)
}

/// The one-character text of digit `d`.
fn digit_str(d: u64) -> (r: &'static str)
    requires
        d < 10,
    ensures
        r@ == seq![((d + 48) as u8) as char],
{
    proof {
        reveal_strlit("0");
        reveal_strlit("1");
        reveal_strlit("2");
        reveal_strlit("3");
        reveal_strlit("4");
        reveal_strlit("5");
        reveal_strlit("6");
        reveal_strlit("7");
        reveal_strlit("8");
        reveal_strlit("9");
    }
    let r = if d == 0 {
        "0"
    } else if d == 1 {
        "1"
    } else if d == 2 {
        "2"
    } else if d == 3 {
        "3"
    } else if d == 4 {
        "4"
    } else if d == 5 {
        "5"
    } else if d == 6 {
        "6"
    } else if d == 7 {
        "7"
    } else if d == 8 {
        "8"
    } else {
        "9"
    };
    assert(r@ =~= seq![((d + 48) as u8) as char]);
    r
}

/// Appends the decimal digits of `n` to `s`.
fn push_decimal_chars(s: &mut String, n: u64)
    ensures
        final(s)@ == old(s)@ + decimal_chars(n as nat),
    decreases n,
{
    if n >= 10 {
        push_decimal_chars(s, n / 10);
    }
    s.append(digit_str(n % 10));
    proof {
        let d = decimal(n as nat);
        if n >= 10 {
            assert(d == decimal((n / 10) as nat).push((n % 10 + 48) as u8));
            assert(decimal_chars(n as nat) =~= decimal_chars((n / 10) as nat) + seq![
                ((n % 10 + 48) as u8) as char,
            ]);
        } else {
            assert(decimal_chars(n as nat) =~= seq![((n % 10 + 48) as u8) as char]);
        }
        assert(final(s)@ =~= old(s)@ + decimal_chars(n as nat));
    }
}

/// The path of segment `seg_id`'s sink:
/// `<outdir><sep><prefix><seg_id>.<format_ext>[.<compression_ext>]`.
pub open spec fn path_name(
    dir: Seq<char>,
    sep: Seq<char>,
    prefix: Seq<char>,
    seg_id: nat,
    format_ext: Seq<char>,
    comp_ext: Option<Seq<char>>,
) -> Seq<char> {
    let base = dir + sep + prefix + decimal_chars(seg_id) + "."@ + format_ext;
    match comp_ext {
        Some(c) => base + "."@ + c,
        None => base,
    }
}

/// The extension that a compression adds.
pub open spec fn compression_ext(c: Compression) -> Option<Seq<char>> {
    match c {
        Compression::Uncompressed => None,
        Compression::Gzip => Some("gz"@),
        Compression::Bgzip => Some("bgz"@),
        Compression::Zstd => Some("zst"@),
    }
}

/// The extension of a record format.
pub open spec fn format_ext(f: OutputFormat) -> Seq<char> {
    match f {
        OutputFormat::Fasta => "fa"@,
        OutputFormat::Fastq => "fq"@,
    }
}

/// Builds the path of segment `seg_id`'s sink inside (or, for named pipes,
/// next to) `outdir`.
pub fn build_path_name(
    outdir: OutputFileType,
    prefix: &str,
    compression: Compression,
    format: OutputFormat,
    seg_id: usize,
) -> (r: String)
    requires
        !(outdir is StdOut),
    ensures
        r@ == path_name(
            target_name(outdir),
            if outdir is RegularFile { "/"@ } else { "."@ },
            prefix@,
            seg_id as nat,
            format_ext(format),
            compression_ext(compression),
        ),
{
    let mut path = String::from_str(outdir.name());
    path.append(outdir.sep());
    path.append(prefix);
    push_decimal_chars(&mut path, seg_id as u64);
    path.append(".");
    path.append(format.ext());
    match compression.ext() {
        Some(c) => {
            path.append(".");
            path.append(c);
        },
        None => {},
    }
    path
}

/// Number of segment sinks when output is split.
pub const MAX_SEGMENT_SINKS: usize = 4;

/// Whether each sink is real (`true`) or discards what it gets: one real sink
/// when output is interleaved; one sink per segment id `0..4` when it is
/// split, real exactly for the selected ids.
pub fn sink_plan(split: bool, filter_opts: &FilterOptions) -> (r: Vec<bool>)
    ensures
        !split ==> r@ == seq![true],
        split ==> r@.len() == MAX_SEGMENT_SINKS && forall|i: int|
            0 <= i < MAX_SEGMENT_SINKS ==> #[trigger] r@[i] == selects(filter_opts.selected@, i as usize),
{
    if !split {
        let mut r: Vec<bool> = Vec::new();
        r.push(true);
        assert(r@ =~= seq![true]);
        return r;
    }
    let mut r: Vec<bool> = Vec::new();
    let mut i: usize = 0;
    while i < MAX_SEGMENT_SINKS
        invariant
            i <= MAX_SEGMENT_SINKS,
            r@.len() == i,
            forall|k: int| 0 <= k < i ==> #[trigger] r@[k] == selects(filter_opts.selected@, k as usize),
        decreases MAX_SEGMENT_SINKS - i,
    {
        r.push(filter_opts.selects(i));
        i = i + 1;
    }
    r
}

/// Threads handed to each compressor: a quarter of the workers (at least one)
/// per segment sink when split, all of them for the single interleaved sink.
pub fn compression_threads(num_threads: usize, split: bool) -> (r: usize)
    ensures
        split ==> r == if num_threads / 4 >= 1 { num_threads / 4 } else { 1 },
        !split ==> r == num_threads,
{
    if split {
        let q = num_threads / 4;
        if q >= 1 {
            q
        } else {
            1
        }
    } else {
        num_threads
    }
}

/// How workers hand their chunks to the sinks.
#[derive(Debug, Clone, Copy, PartialEq, Eq, Structural)]
pub enum WriterStrategy {
    /// Workers write under a lock on the sink array.
    Direct,
    /// Each sink has its own writer thread fed through a queue.
    Buffered,
}

/// The strategy for a run: buffered exactly when split output goes to named
/// pipes, which may block until a reader attaches.
pub fn choose_strategy(split: bool, named_pipes: bool) -> (r: WriterStrategy)
    ensures
        r == (if split && named_pipes { WriterStrategy::Buffered } else { WriterStrategy::Direct }),
{
    if split && named_pipes {
        WriterStrategy::Buffered
    } else {
        WriterStrategy::Direct
    }
}

/// What to do with a segment sink's file once the run is over.
#[derive(Debug, Clone, Copy, PartialEq, Eq, Structural)]
pub enum Cleanup {
    /// Delete it.
    Remove,
    /// Keep it and warn that it is empty.
    WarnEmpty,
}

/// The action for segment `sid`'s file after a split run, if any: named pipes
/// are always removed; an empty file of a selected segment is removed, or kept
/// with a warning when empty files are kept.
pub open spec fn cleanup_of(
    written: u64,
    selected: Seq<usize>,
    sid: usize,
    named_pipes: bool,
    keep_empty: bool,
) -> Option<Cleanup> {
    if !selects(selected, sid) {
        None
    } else if named_pipes {
        Some(Cleanup::Remove)
    } else if written == 0 {
        if keep_empty {
            Some(Cleanup::WarnEmpty)
        } else {
            Some(Cleanup::Remove)
        }
    } else {
        None
    }
}

/// The clean-up after a split run: for each segment id counted in `written`,
/// its action, if any.
pub fn cleanup_plan(
    written: &Vec<u64>,
    filter_opts: &FilterOptions,
    named_pipes: bool,
    keep_empty: bool,
) -> (r: Vec<Option<Cleanup>>)
    ensures
        r@.len() == written@.len(),
        forall|i: int|
            0 <= i < written@.len() ==> #[trigger] r@[i] == cleanup_of(
                written@[i],
                filter_opts.selected@,
                i as usize,
                named_pipes,
                keep_empty,
            ),
{
    let mut r: Vec<Option<Cleanup>> = Vec::new();
    let mut i: usize = 0;
    while i < written.len()
        invariant
            i <= written@.len(),
            r@.len() == i,
            forall|k: int|
                0 <= k < i ==> #[trigger] r@[k] == cleanup_of(
                    written@[k],
                    filter_opts.selected@,
                    k as usize,
                    named_pipes,
                    keep_empty,
                ),
        decreases written@.len() - i,
    {
        let action = if !filter_opts.selects(i) {
            None
        } else if named_pipes {
            Some(Cleanup::Remove)
        } else if written[i] == 0 {
            if keep_empty {
                Some(Cleanup::WarnEmpty)
            } else {
                Some(Cleanup::Remove)
            }
        } else {
            None
        };
        r.push(action);
        i = i + 1;
    }
    r
}

/// After a split run that does not keep empty files, every selected segment
/// whose count is zero has its file removed.
pub proof fn lemma_no_empty_file_kept(
    written: Seq<u64>,
    selected: Seq<usize>,
    named_pipes: bool,
    sid: usize,
)
    requires
        sid < written.len(),
        written[sid as int] == 0,
        selects(selected, sid),
    ensures
        cleanup_of(written[sid as int], selected, sid, named_pipes, false) == Some(Cleanup::Remove),
{
}

} // verus!
