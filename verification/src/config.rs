//! The settings of one conversion, and how they follow from what was asked for.

use crate::error::ConversionError;
use crate::nbtifier::{NBTIfy, SchematicV2, StructureFormat};
use crate::nbt_helper::{blob_content, Tag};
use crate::voxel_grid::VoxelGrid;
use nbt::Blob;
use vstd::prelude::*;

verus! {

/// What `str::to_lowercase` makes of a text.
pub uninterp spec fn lowercase(text: Seq<char>) -> Seq<char>;

/// How alike two texts are: the bit pattern of the number between 0 and 1
/// that `strsim::normalized_levenshtein` gives for them, 1 standing for equal
/// texts. For such numbers a greater bit pattern is a greater number.
pub uninterp spec fn similarity(a: Seq<char>, b: Seq<char>) -> u64;

/// `str::to_lowercase`.
#[verifier::external_body]
fn to_lowercase(text: &str) -> (lower: String)
    ensures
        lower@ == lowercase(text@),
{
    text.to_lowercase()
}

/// `strsim::normalized_levenshtein`, the number handed on as its bit pattern.
#[verifier::external_body]
fn similarity_of(a: &str, b: &str) -> (bits: u64)
    ensures
        bits == similarity(a@, b@),
{
    strsim::normalized_levenshtein(a, b).to_bits()
}

/// `num_cpus::get`: the number of processors that this process may use, at
/// least one.
#[verifier::external_body]
fn available_cpus() -> (cpus: usize)
    ensures
        cpus >= 1,
{
    num_cpus::get()
}

fn same_text(a: &str, b: &str) -> (same: bool)
    ensures
        same == (a@ == b@),
{
    a.to_owned() == b.to_owned()
}

/// Input file format.
#[derive(Clone, Copy, Debug, PartialEq, Eq, Structural)]
pub enum MeshFormat {
    Obj,
    Stl,
    Dae,
}

impl MeshFormat {
    /// The format that a file extension in lower case stands for.
    pub open spec fn of_extension(lower: Seq<char>) -> Option<MeshFormat> {
        if lower == "obj"@ {
            Some(MeshFormat::Obj)
        } else if lower == "stl"@ {
            Some(MeshFormat::Stl)
        } else if lower == "dae"@ {
            Some(MeshFormat::Dae)
        } else {
            None
        }
    }

    /// The format that a file extension in lower case stands for.
    pub fn from_lowercase(extension: &str) -> (format: Option<MeshFormat>)
        ensures
            format == Self::of_extension(extension@),
    {
        if same_text(extension, "obj") {
            Some(MeshFormat::Obj)
        } else if same_text(extension, "stl") {
            Some(MeshFormat::Stl)
        } else if same_text(extension, "dae") {
            Some(MeshFormat::Dae)
        } else {
            None
        }
    }

    /// The format that a file extension stands for, whatever its case.
    pub fn from_extension(extension: &str) -> (format: Option<MeshFormat>)
        ensures
            format == Self::of_extension(lowercase(extension@)),
    {
        let lower = to_lowercase(extension);
        Self::from_lowercase(lower.as_str())
    }
}

/// Output file format.
#[derive(Clone, Copy, Debug, PartialEq, Eq, Structural)]
pub enum OutputFormat {
    /// The compact palette-array format.
    Schematic,
    /// The sparse block-list format.
    Structure,
}

impl OutputFormat {
    /// The format that a name stands for.
    pub open spec fn named(name: Seq<char>) -> Option<OutputFormat> {
        if name == "schematic"@ || name == "schem"@ || name == "sch"@ {
            Some(OutputFormat::Schematic)
        } else if name == "structure"@ || name == "str"@ || name == "nbt"@ {
            Some(OutputFormat::Structure)
        } else {
            None
        }
    }

    /// The format that a name stands for.
    pub fn from_name(name: &str) -> (format: Option<OutputFormat>)
        ensures
            format == Self::named(name@),
    {
        if same_text(name, "schematic") || same_text(name, "schem") || same_text(name, "sch") {
            Some(OutputFormat::Schematic)
        } else if same_text(name, "structure") || same_text(name, "str") || same_text(name, "nbt") {
            Some(OutputFormat::Structure)
        } else {
            None
        }
    }
}

impl NBTIfy for OutputFormat {
    open spec fn fields(&self, grid: &VoxelGrid, config: &Config, timestamp: i64) -> Map<
        Seq<char>,
        Tag,
    > {
        match *self {
            OutputFormat::Schematic => SchematicV2.fields(grid, config, timestamp),
            OutputFormat::Structure => StructureFormat.fields(grid, config, timestamp),
        }
    }

    open spec fn extension(&self) -> Seq<char> {
        match *self {
            OutputFormat::Schematic => SchematicV2.extension(),
            OutputFormat::Structure => StructureFormat.extension(),
        }
    }

    fn convert(&self, grid: &VoxelGrid, config: &Config) -> (outcome: Result<
        Blob,
        ConversionError,
    >) {
        let outcome = match self {
            OutputFormat::Schematic => SchematicV2.convert(grid, config),
            OutputFormat::Structure => StructureFormat.convert(grid, config),
        };
        proof {
            if outcome is Ok {
                let content = blob_content(outcome->Ok_0);
                let timestamp = choose|timestamp: i64|
                    content == SchematicV2.fields(grid, config, timestamp) || content
                        == StructureFormat.fields(grid, config, timestamp);
                assert(content == self.fields(grid, config, timestamp));
            }
        }
        outcome
    }

    fn file_ending(&self) -> (ending: &'static str) {
        match self {
            OutputFormat::Schematic => SchematicV2.file_ending(),
            OutputFormat::Structure => StructureFormat.file_ending(),
        }
    }
}

/// What was asked for on the command line, as plain values.
pub struct Arguments {
    /// The input file, if one was named.
    pub input_path: Option<String>,
    /// The file name portion of the input path without its extension, if it has one.
    pub filename: Option<String>,
    /// The extension of the input path, empty if it has none.
    pub extension: String,
    /// The game version asked for, as a name or as a data version.
    pub version: Option<String>,
    /// The number that `version` reads as, where it reads as one.
    pub version_number: Option<i32>,
    /// The block to fill occupied cells with.
    pub block: Option<String>,
    /// The number of worker threads asked for; 0 leaves the choice open.
    pub threads: usize,
    /// The name of the output format.
    pub format: Option<String>,
}

impl Arguments {
    /// The block asked for, stone where none was.
    pub open spec fn block_or_default(&self) -> Seq<char> {
        match self.block {
            Some(block) => block@,
            None => "stone"@,
        }
    }

    /// The name of the output format asked for, "schematic" where none was.
    pub open spec fn format_or_default(&self) -> Seq<char> {
        match self.format {
            Some(format) => format@,
            None => "schematic"@,
        }
    }

    /// Whether a configuration follows from these arguments: an input file
    /// with a file name and a known extension, a version and a known output
    /// format.
    pub open spec fn complete(&self) -> bool {
        &&& self.input_path is Some
        &&& self.filename is Some
        &&& self.version is Some
        &&& MeshFormat::of_extension(lowercase(self.extension@)) is Some
        &&& OutputFormat::named(self.format_or_default()) is Some
    }
}

/// Pass around configuration options easily.
pub struct Config {
    /// The data version of the game release that the output is made for.
    pub data_version: i32,
    /// The input file.
    pub input_path: String,
    /// Just the file name portion of the input path, without its extension.
    pub filename: String,
    /// The block to use for occupied voxels. Defaults to stone.
    pub block: String,
    /// Number of worker threads to use, at least one.
    pub threads: usize,
    /// Output file format.
    pub nbtify: OutputFormat,
    /// Input file format.
    pub reader: MeshFormat,
}

/// The key of the given index entry.
pub open spec fn key_at(index: Seq<(String, i32)>, p: int) -> Seq<char> {
    index[p].0@
}

/// `p` is the first entry of `index` whose key is `version`.
pub open spec fn exact_match(index: Seq<(String, i32)>, version: Seq<char>, p: int) -> bool {
    &&& 0 <= p < index.len()
    &&& key_at(index, p) == version
    &&& forall|q: int| 0 <= q < p ==> key_at(index, q) != version
}

/// `p` is the first of the greatest scores.
pub open spec fn first_greatest(scores: Seq<u64>, p: int) -> bool {
    &&& 0 <= p < scores.len()
    &&& forall|q: int| 0 <= q < scores.len() ==> scores[q] <= scores[p]
    &&& forall|q: int| 0 <= q < p ==> scores[q] < scores[p]
}

/// How alike each key of `index` is to `version`.
pub open spec fn scores_of(index: Seq<(String, i32)>, version: Seq<char>) -> Seq<u64> {
    Seq::new(index.len(), |p: int| similarity(key_at(index, p), version))
}

/// `found` is the entry that stands for `version`: the first entry with that
/// key; where no entry has that key, the first of the entries whose key is
/// most like it; none where the index is empty.
pub open spec fn stands_for(index: Seq<(String, i32)>, version: Seq<char>, found: Option<usize>) -> bool {
    match found {
        None => index.len() == 0,
        Some(p) => exact_match(index, version, p as int) || ((forall|q: int|
            0 <= q < index.len() ==> key_at(index, q) != version) && first_greatest(
            scores_of(index, version),
            p as int,
        )),
    }
}

/// The data version that `parse_version_string` gives for the entry found.
pub open spec fn version_of(index: Seq<(String, i32)>, found: Option<usize>) -> i32 {
    match found {
        None => 0,
        Some(p) => index[p as int].1,
    }
}

/// The number of workers for a request of `requested` workers on a machine
/// with `cpus` processors: what was asked for, or else one less than there are
/// processors, and always at least one.
pub open spec fn workers_for(requested: usize, cpus: usize) -> usize {
    if requested >= 1 {
        requested
    } else if cpus > 1 {
        (cpus - 1) as usize
    } else {
        1
    }
}

/// The position of the first of the greatest scores, if there is any score.
pub fn first_greatest_score(scores: &Vec<u64>) -> (found: Option<usize>)
    ensures
        match found {
            None => scores.len() == 0,
            Some(p) => first_greatest(scores@, p as int),
        },
{
    if scores.len() == 0 {
        return None;
    }
    let mut best: usize = 0;
    let mut n: usize = 1;
    while n < scores.len()
        invariant
            1 <= n <= scores.len(),
            first_greatest(scores@.take(n as int), best as int),
        decreases scores.len() - n,
    {
        if scores[n] > scores[best] {
            best = n;
        }
        n += 1;
    }
    proof {
        assert(scores@.take(n as int) =~= scores@);
    }
    Some(best)
}

impl Config {
    /// Whether `config` is what follows from `args` on a machine with `cpus`
    /// processors, the names of versions being looked up in `index`.
    pub open spec fn follows_from(
        config: Config,
        args: Arguments,
        index: Seq<(String, i32)>,
        cpus: usize,
    ) -> bool {
        &&& args.complete()
        &&& config.input_path@ == args.input_path->0@
        &&& config.filename@ == args.filename->0@
        &&& config.block@ == args.block_or_default()
        &&& config.threads == workers_for(args.threads, cpus)
        &&& Some(config.nbtify) == OutputFormat::named(args.format_or_default())
        &&& Some(config.reader) == MeshFormat::of_extension(lowercase(args.extension@))
        &&& match args.version_number {
            Some(number) => config.data_version == number,
            None => exists|found: Option<usize>|
                stands_for(index, args.version->0@, found) && config.data_version == version_of(
                    index,
                    found,
                ),
        }
    }

    /// The configuration that follows from `args` on a machine with `cpus`
    /// processors.
    ///
    /// Fails with `ConversionError::Config` exactly when the arguments are not
    /// complete.
    pub fn build(args: &Arguments, index: &Vec<(String, i32)>, cpus: usize) -> (outcome: Result<
        Config,
        ConversionError,
    >)
        ensures
            outcome is Ok <==> args.complete(),
            outcome matches Ok(config) ==> Self::follows_from(config, *args, index@, cpus),
            outcome matches Err(e) ==> e == ConversionError::Config,
    {
        let input_path = match &args.input_path {
            Some(path) => path.clone(),
            None => {
                return Err(ConversionError::Config);
            },
        };
        let filename = match &args.filename {
            Some(name) => name.clone(),
            None => {
                return Err(ConversionError::Config);
            },
        };
        let reader = match MeshFormat::from_extension(args.extension.as_str()) {
            Some(reader) => reader,
            None => {
                return Err(ConversionError::Config);
            },
        };
        let version = match &args.version {
            Some(version) => version,
            None => {
                return Err(ConversionError::Config);
            },
        };
        let block = match &args.block {
            Some(block) => block.clone(),
            None => "stone".to_owned(),
        };
        let data_version = match args.version_number {
            Some(number) => number,
            None => Self::parse_version_string(index, version.as_str()),
        };
        let threads = Self::worker_count(args.threads, cpus);
        let format = match &args.format {
            Some(name) => OutputFormat::from_name(name.as_str()),
            None => OutputFormat::from_name("schematic"),
        };
        let nbtify = match format {
            Some(nbtify) => nbtify,
            None => {
                return Err(ConversionError::Config);
            },
        };
        Ok(Config { data_version, input_path, filename, block, threads, nbtify, reader })
    }

    /// The configuration that follows from `args` on this machine.
    ///
    /// Fails with `ConversionError::Config` exactly when the arguments are not
    /// complete.
    pub fn from_argmatch(args: &Arguments, index: &Vec<(String, i32)>) -> (outcome: Result<
        Config,
        ConversionError,
    >)
        ensures
            outcome is Ok <==> args.complete(),
            outcome matches Ok(config) ==> exists|cpus: usize|
                cpus >= 1 && Self::follows_from(config, *args, index@, cpus),
            outcome matches Err(e) ==> e == ConversionError::Config,
    {
        let cpus = available_cpus();
        let outcome = Self::build(args, index, cpus);
        proof {
            if outcome is Ok {
                assert(cpus >= 1 && Self::follows_from(outcome->Ok_0, *args, index@, cpus));
            }
        }
        outcome
    }

    /// The number of workers to use where `requested` were asked for and the
    /// machine has `cpus` processors.
    pub fn worker_count(requested: usize, cpus: usize) -> (workers: usize)
        ensures
            workers == workers_for(requested, cpus),
            workers >= 1,
    {
        if requested >= 1 {
            requested
        } else if cpus > 1 {
            cpus - 1
        } else {
            1
        }
    }

    /// The entry of `index` that stands for `version`.
    pub fn find_version(index: &Vec<(String, i32)>, version: &str) -> (found: Option<usize>)
        ensures
            stands_for(index@, version@, found),
    {
        let mut n: usize = 0;
        while n < index.len()
            invariant
                n <= index.len(),
                forall|q: int| 0 <= q < n ==> key_at(index@, q) != version@,
            decreases index.len() - n,
        {
            if same_text(index[n].0.as_str(), version) {
                return Some(n);
            }
            n += 1;
        }
        let mut scores: Vec<u64> = Vec::new();
        let mut m: usize = 0;
        while m < index.len()
            invariant
                m <= index.len(),
                scores@ == scores_of(index@, version@).take(m as int),
            decreases index.len() - m,
        {
            let score = similarity_of(index[m].0.as_str(), version);
            scores.push(score);
            proof {
                assert(scores@ =~= scores_of(index@, version@).take(m + 1));
            }
            m += 1;
        }
        proof {
            assert(scores@ =~= scores_of(index@, version@));
        }
        first_greatest_score(&scores)
    }

    /// The data version that the name `version` stands for in `index`: that of
    /// the entry with this name, or else of the entry whose name is most like
    /// it, or 0 where the index is empty.
    pub fn parse_version_string(index: &Vec<(String, i32)>, version: &str) -> (data_version: i32)
        ensures
            exists|found: Option<usize>|
                stands_for(index@, version@, found) && data_version == version_of(index@, found),
    {
        let found = Self::find_version(index, version);
        let data_version = match found {
            None => 0,
            Some(p) => index[p].1,
        };
        proof {
            assert(stands_for(index@, version@, found) && data_version == version_of(index@, found));
        }
        data_version
    }
}

} // verus!
