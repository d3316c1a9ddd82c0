//! Options of the commands and what follows from them.
use vstd::prelude::*;
use vstd::string::StrSliceExecFns;
use crate::encode::OutputFormat;
use crate::error::XsraError;
use crate::filter::FilterOptions;
use crate::output::Compression;
use crate::partition::RuntimeOptions;

verus! {

/// Where download URLs are looked for.
#[derive(Debug, Clone, Copy, PartialEq, Eq, Structural)]
pub enum Provider {
    Https,
    Gcp,
    Aws,
}

impl Provider {
    /// The scheme that URLs of this provider start with.
    pub fn url_prefix(&self) -> (r: &'static str)
        ensures
            r@ == url_prefix_of(*self),
    {
        match self {
            Provider::Https => "https://",
            Provider::Gcp => "gs://",
            Provider::Aws => "s3://",
        }
    }

    /// The provider's name as given on the command line.
    pub fn name(&self) -> (r: &'static str)
        ensures
            r@ == match self {
                Provider::Https => "https"@,
                Provider::Gcp => "gcp"@,
                Provider::Aws => "aws"@,
            },
    {
        match self {
            Provider::Https => "https",
            Provider::Gcp => "gcp",
            Provider::Aws => "aws",
        }
    }
}

/// The URL scheme of a provider.
pub open spec fn url_prefix_of(p: Provider) -> Seq<char> {
    match p {
        Provider::Https => "https://"@,
        Provider::Gcp => "gs://"@,
        Provider::Aws => "s3://"@,
    }
}

/// How an accession is resolved to a URL.
#[derive(Debug, Clone)]
pub struct AccessionOptions {
    /// Only accept an archive with complete quality scores
    pub full_quality: bool,
    pub provider: Provider,
    /// GCP project id, needed for GCP downloads
    pub gcp_project_id: Option<String>,
    /// Retries allowed when the service limits the request rate
    pub retry_limit: usize,
    /// Delay in milliseconds between retries
    pub retry_delay: usize,
}

/// One accession (or local path) to read.
#[derive(Debug, Clone)]
pub struct InputOptions {
    pub accession: String,
    pub options: AccessionOptions,
}

/// Several accessions to read.
#[derive(Debug, Clone)]
pub struct MultiInputOptions {
    pub accessions: Vec<String>,
    pub options: AccessionOptions,
}

impl MultiInputOptions {
    pub fn accession_set(&self) -> (r: &[String])
        ensures
            r@ == self.accessions@,
    {
        self.accessions.as_slice()
    }
}

/// Options of the `describe` command.
#[derive(Debug, Clone, Copy)]
pub struct DescribeOptions {
    /// Number of spots to describe
    pub limit: usize,
    /// Number of spots to skip before describing
    pub skip: usize,
}

/// Options of the `describe` command with its input.
#[derive(Debug, Clone)]
pub struct DescribeArgs {
    pub input: InputOptions,
    pub options: DescribeOptions,
}

/// Output options of the `dump` command.
#[derive(Debug, Clone)]
pub struct DumpOutput {
    /// Output directory (or, with named pipes, the stem of the pipe names)
    pub outdir: String,
    /// Write to named pipes `<outdir>.<prefix><segment>.<ext>`
    pub named_pipes: bool,
    pub format: OutputFormat,
    /// Write each segment id to its own sink
    pub split: bool,
    /// Prefix of the segment files
    pub prefix: String,
    pub compression: Compression,
    /// Keep empty segment files
    pub keep_empty: bool,
}

/// Options of the `dump` command.
#[derive(Debug, Clone)]
pub struct DumpArgs {
    pub input: InputOptions,
    pub filter: FilterOptions,
    pub output: DumpOutput,
    pub runtime: RuntimeOptions,
}

/// Options of the `prefetch` command.
#[derive(Debug, Clone)]
pub struct PrefetchArgs {
    pub input: MultiInputOptions,
    /// Path to write the archive to
    pub output: Option<String>,
}

/// Binary format of a recoded archive.
#[derive(Debug, Clone, Copy, PartialEq, Eq, Structural)]
pub enum BinseqFlavor {
    Binseq,
    VBinseq,
}

impl BinseqFlavor {
    /// File extension of the flavor.
    pub fn extension(&self) -> (r: &'static str)
        ensures
            r@ == flavor_ext(*self),
    {
        match self {
            BinseqFlavor::Binseq => "bq",
            BinseqFlavor::VBinseq => "vbq",
        }
    }
}

/// The file extension of a flavor.
pub open spec fn flavor_ext(f: BinseqFlavor) -> Seq<char> {
    match f {
        BinseqFlavor::Binseq => "bq"@,
        BinseqFlavor::VBinseq => "vbq"@,
    }
}

/// Which spots and segments a recode reads.
#[derive(Debug, Clone)]
pub struct SelectionOptions {
    /// Process at most this many spots
    pub limit: Option<usize>,
    /// Segment ids to recode: the primary one, then optionally the extended one
    pub selected: Vec<usize>,
}

/// Output options of the `recode` command.
#[derive(Debug, Clone)]
pub struct RecodeOutput {
    /// Output file name (default: `output.<ext>`)
    pub name: Option<String>,
    pub flavor: BinseqFlavor,
    /// Virtual block size of VBINSEQ output, in bytes
    pub block_size: usize,
}

impl RecodeOutput {
    /// The output file name: the given one, else `output.` and the flavor's extension.
    pub fn name(&self) -> (r: String)
        ensures
            r@ == match self.name {
                Some(n) => n@,
                None => "output."@ + flavor_ext(self.flavor),
            },
    {
        match &self.name {
            Some(n) => n.clone(),
            None => {
                let mut r = String::from_str("output.");
                r.append(self.flavor.extension());
                r
            },
        }
    }
}

/// Options of the `recode` command.
#[derive(Debug, Clone)]
pub struct RecodeArgs {
    pub input: InputOptions,
    pub selection: SelectionOptions,
    pub runtime: RuntimeOptions,
    pub output: RecodeOutput,
}

impl RecodeArgs {
    /// A recode selects one or two segments.
    pub fn validate(&self) -> (r: Result<(), XsraError>)
        ensures
            self.selection.selected@.len() == 0 ==> r == Err::<(), XsraError>(XsraError::NoSegmentSelected),
            self.selection.selected@.len() > 2 ==> r == Err::<(), XsraError>(XsraError::TooManySegments),
            1 <= self.selection.selected@.len() <= 2 ==> r is Ok,
    {
        let n = self.selection.selected.len();
        if n == 0 {
            Err(XsraError::NoSegmentSelected)
        } else if n <= 2 {
            Ok(())
        } else {
            Err(XsraError::TooManySegments)
        }
    }

    /// Whether the recode writes pairs.
    pub fn paired(&self) -> (r: bool)
        ensures
            r == (self.selection.selected@.len() == 2),
    {
        self.selection.selected.len() == 2
    }

    /// The primary segment id.
    pub fn primary_sid(&self) -> (r: usize)
        requires
            self.selection.selected@.len() >= 1,
        ensures
            r == self.selection.selected@[0],
    {
        self.selection.selected[0]
    }

    /// The extended segment id, when pairs are written.
    pub fn extended_sid(&self) -> (r: Option<usize>)
        ensures
            self.selection.selected@.len() == 2 ==> r == Some(self.selection.selected@[1]),
            self.selection.selected@.len() != 2 ==> r is None,
    {
        if self.paired() {
            Some(self.selection.selected[1])
        } else {
            None
        }
    }
}


/// A command of the tool with its options.
#[derive(Debug, Clone)]
pub enum Command {
    /// Extract the records of an archive as FASTQ or FASTA
    Dump(DumpArgs),
    /// Recode the records of an archive as BINSEQ or VBINSEQ
    Recode(RecodeArgs),
    /// Describe the segments of the first spots of an archive
    Describe(DescribeArgs),
    /// Download archives
    Prefetch(PrefetchArgs),
}

/// The parsed command line.
#[derive(Debug, Clone)]
pub struct Cli {
    pub command: Command,
}

/// What `str::trim` returns: the text without leading and trailing whitespace.
pub uninterp spec fn trim_of(s: Seq<char>) -> Seq<char>;

/// What `str::to_uppercase` returns: the text in upper case.
pub uninterp spec fn upper_of(s: Seq<char>) -> Seq<char>;

/// Relies on `str::trim`: the result depends on the characters alone.
#[verifier::external_body]
fn trimmed(s: &str) -> (r: &str)
    ensures
        r@ == trim_of(s@),
{
    s.trim()
}

/// Relies on `str::to_uppercase`: the result depends on the characters alone.
#[verifier::external_body]
fn uppercased(s: &str) -> (r: String)
    ensures
        r@ == upper_of(s@),
{
    s.to_uppercase()
}

/// Every character of `s` is an ASCII digit.
pub open spec fn all_digits(s: Seq<char>) -> bool {
    forall|i: int| 0 <= i < s.len() ==> '0' <= #[trigger] s[i] <= '9'
}

/// The value of a string of decimal digits.
pub open spec fn digits_value(s: Seq<char>) -> nat
    decreases s.len(),
{
    if s.len() == 0 {
        0
    } else {
        digits_value(s.drop_last()) * 10 + (s.last() as nat - '0' as nat) as nat
    }
}

/// Relies on `str::parse::<usize>`: a non-empty run of ASCII digits whose
/// value fits parses to that value; whatever parses is such a run, possibly
/// after a `+` sign.
#[verifier::external_body]
fn parse_usize(s: &str) -> (r: Option<usize>)
    ensures
        s@.len() > 0 && all_digits(s@) && digits_value(s@) <= usize::MAX ==> r == Some(
            digits_value(s@) as usize,
        ),
        r is Some ==> (s@.len() > 0 && all_digits(s@) && r->Some_0 == digits_value(s@)) || (s@.len()
            > 1 && s@[0] == '+' && all_digits(s@.drop_first()) && r->Some_0 == digits_value(
            s@.drop_first(),
        )),
{
    s.parse::<usize>().ok()
}

/// The multiplier of a memory-size suffix, if the character is one.
pub open spec fn suffix_multiplier(c: char) -> Option<nat> {
    if c == 'K' {
        Some(1024)
    } else if c == 'M' {
        Some(1048576)
    } else if c == 'G' {
        Some(1073741824)
    } else {
        None
    }
}

/// The multiplier that the last character of a memory size stands for.
pub open spec fn multiplier_of(c: char) -> nat {
    match suffix_multiplier(c) {
        Some(m) => m,
        None => 1,
    }
}

/// The number part of a memory size: all but a unit suffix.
pub open spec fn size_body(t: Seq<char>) -> Seq<char> {
    if t.len() > 0 && suffix_multiplier(t.last()) is Some {
        t.drop_last()
    } else {
        t
    }
}

/// Appends a string to an owned message.
fn message(head: &str, tail: &str) -> (r: String)
    ensures
        r@ == head@ + tail@,
{
    let mut r = String::from_str(head);
    r.append(tail);
    r
}

/// The number that the number part of a memory size denotes: a non-empty run
/// of digits, possibly after a `+` sign.
pub open spec fn number_of(body: Seq<char>) -> Option<nat> {
    if body.len() > 0 && all_digits(body) {
        Some(digits_value(body))
    } else if body.len() > 1 && body[0] == '+' && all_digits(body.drop_first()) {
        Some(digits_value(body.drop_first()))
    } else {
        None
    }
}

/// What parsing the normalised (trimmed, upper-case) memory size `t` may give:
/// an error for empty text, an unknown unit or a number part that is not a
/// number; else the number times the unit, which is owed whenever the number
/// part is plain digits and the product fits.
pub open spec fn memory_size_result(t: Seq<char>, r: Result<usize, String>) -> bool {
    let body = size_body(t);
    let m = multiplier_of(t.last());
    &&& t.len() == 0 ==> r is Err
    &&& t.len() > 0 && suffix_multiplier(t.last()) is None && !('0' <= t.last() <= '9') ==> r is Err
    &&& r is Ok ==> t.len() > 0 && number_of(body) is Some && r->Ok_0 == number_of(body)->Some_0 * m
    &&& t.len() > 0 && (suffix_multiplier(t.last()) is Some || '0' <= t.last() <= '9') && body.len() > 0
        && all_digits(body) && digits_value(body) * m <= usize::MAX ==> r == Ok::<usize, String>(
        (digits_value(body) * m) as usize,
    )
}

/// Parses a memory size that is already trimmed and in upper case: a number,
/// optionally followed by `K`, `M` or `G`, to a number of bytes.
pub fn parse_normalised_memory_size(text: &str) -> (r: Result<usize, String>)
    ensures
        memory_size_result(text@, r),
{
    let n = text.unicode_len();
    if n == 0 {
        return Err(message("Invalid memory size format: ", text));
    }
    let last = text.get_char(n - 1);
    let multiplier: usize = if last == 'K' {
        1024
    } else if last == 'M' {
        1048576
    } else if last == 'G' {
        1073741824
    } else if '0' <= last && last <= '9' {
        1
    } else {
        return Err(message("Invalid memory size format: ", text));
    };
    let number_str = if multiplier == 1 {
        text
    } else {
        text.substring_char(0, n - 1)
    };
    proof {
        if multiplier != 1 {
            assert(text@.drop_last() =~= text@.subrange(0, n - 1));
        }
    }
    match parse_usize(number_str) {
        Some(number) => match number.checked_mul(multiplier) {
            Some(v) => Ok(v),
            None => Err(message("Memory size out of range: ", text)),
        },
        None => Err(message("Failed to parse number: ", number_str)),
    }
}

/// Parses a memory size such as `128K`, `4M`, `1G` or `1024` (case and
/// surrounding whitespace do not matter) to a number of bytes.
pub fn parse_memory_size(input: &str) -> (r: Result<usize, String>)
    ensures
        memory_size_result(upper_of(trim_of(input@)), r),
{
    let upper = uppercased(trimmed(input));
    parse_normalised_memory_size(upper.as_str())
}

} // verus!
