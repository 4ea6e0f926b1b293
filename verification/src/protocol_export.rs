//! The descriptions of the protocol of the app server.

use vstd::prelude::*;

use crate::paths::join_path;
use crate::text::concat4;
use crate::text::copy_of;

verus! {

/// The arguments of an export.
#[derive(Debug)]
pub struct ProtocolExportArgs {
    /// The directory that the descriptions are written to.
    pub out: String,
    /// The program that writes them.
    pub codex_bin: Option<String>,
    /// Whether JSON schemas are asked for.
    pub json_schema: bool,
    /// Whether TypeScript is asked for.
    pub typescript: bool,
    /// Whether what is not settled yet is described too.
    pub experimental: bool,
}

/// The forms of a description.
#[derive(Clone, Copy, Debug, PartialEq, Eq, Structural)]
pub struct ExportFormats {
    pub json_schema: bool,
    pub typescript: bool,
}

impl ExportFormats {
    /// The forms that were asked for, or both where none was.
    pub fn from_args(json_schema: bool, typescript: bool) -> (out: ExportFormats)
        ensures
            out == (if !json_schema && !typescript {
                ExportFormats { json_schema: true, typescript: true }
            } else {
                ExportFormats { json_schema, typescript }
            }),
    {
        if !json_schema && !typescript {
            return ExportFormats { json_schema: true, typescript: true };
        }
        ExportFormats { json_schema, typescript }
    }
}

/// One run of the program that writes a description.
#[derive(Debug)]
pub struct GeneratorRun {
    pub generator: String,
    pub out_dir: String,
    pub args: Vec<String>,
}

/// One run, over mathematical values.
#[verifier::ext_equal]
pub struct GeneratorModel {
    pub generator: Seq<char>,
    pub out_dir: Seq<char>,
    pub args: Seq<Seq<char>>,
}

impl View for GeneratorRun {
    type V = GeneratorModel;

    open spec fn view(&self) -> GeneratorModel {
        GeneratorModel {
            generator: self.generator@,
            out_dir: self.out_dir@,
            args: crate::text::texts(self.args@),
        }
    }
}

/// The run that writes to a directory.
pub open spec fn generator_run(
    generator: Seq<char>,
    out_dir: Seq<char>,
    experimental: bool,
) -> GeneratorModel {
    let more = if experimental {
        seq!["--experimental"@]
    } else {
        seq![]
    };
    GeneratorModel {
        generator,
        out_dir,
        args: seq!["app-server"@, generator, "--out"@, out_dir] + more,
    }
}

fn one_run(generator: &str, out_dir: String, experimental: bool) -> (out: GeneratorRun)
    ensures
        out@ == generator_run(generator@, out_dir@, experimental),
{
    let mut args: Vec<String> = Vec::new();
    args.push(copy_of("app-server"));
    args.push(copy_of(generator));
    args.push(copy_of("--out"));
    args.push(out_dir.clone());
    if experimental {
        args.push(copy_of("--experimental"));
    }
    proof {
        assert(crate::text::texts(args@) =~= generator_run(
            generator@,
            out_dir@,
            experimental,
        ).args);
    }
    GeneratorRun { generator: copy_of(generator), out_dir, args }
}

/// The runs of an export: JSON schemas before TypeScript.
pub open spec fn export_runs(args: ProtocolExportArgs) -> Seq<GeneratorModel> {
    let both = !args.json_schema && !args.typescript;
    let json = generator_run(
        "generate-json-schema"@,
        crate::paths::joined_path(args.out@, "json-schema"@),
        args.experimental,
    );
    let typescript = generator_run(
        "generate-ts"@,
        crate::paths::joined_path(args.out@, "typescript"@),
        args.experimental,
    );
    (if both || args.json_schema {
        seq![json]
    } else {
        seq![]
    }) + (if both || args.typescript {
        seq![typescript]
    } else {
        seq![]
    })
}

/// The runs of an export.
pub fn export(args: &ProtocolExportArgs) -> (out: Vec<GeneratorRun>)
    ensures
        out@.map_values(|run: GeneratorRun| run@) == export_runs(*args),
{
    let formats = ExportFormats::from_args(args.json_schema, args.typescript);
    let mut out: Vec<GeneratorRun> = Vec::new();
    if formats.json_schema {
        let dir = join_path(args.out.as_str(), "json-schema");
        out.push(one_run("generate-json-schema", dir, args.experimental));
    }
    if formats.typescript {
        let dir = join_path(args.out.as_str(), "typescript");
        out.push(one_run("generate-ts", dir, args.experimental));
    }
    proof {
        assert(out@.map_values(|run: GeneratorRun| run@) =~= export_runs(*args));
    }
    out
}

/// What is said of a run: where it wrote, or how it ended.
pub fn export_outcome(run: &GeneratorRun, success: bool, status: &str) -> (out: Result<String, String>)
    ensures
        match out {
            Ok(line) => success && line@ == "wrote "@ + run@.generator + ": "@ + run@.out_dir,
            Err(message) => !success && message@ == "codex app-server "@ + run@.generator
                + " exited with "@ + status@,
        },
{
    if success {
        Ok(concat4("wrote ", run.generator.as_str(), ": ", run.out_dir.as_str()))
    } else {
        Err(concat4("codex app-server ", run.generator.as_str(), " exited with ", status))
    }
}

/// Something is always written.
pub proof fn exports_write_something(args: ProtocolExportArgs)
    ensures
        export_runs(args).len() > 0,
{
}

/// What is asked for is written, and both where nothing was. Schemas come first, each
/// description goes into a directory of its own, and what is not settled is asked for
/// where it was.
pub proof fn asked_descriptions_are_written(args: ProtocolExportArgs)
    ensures
        ({
            let runs = export_runs(args);
            let schema = args.json_schema || !args.typescript;
            let types = args.typescript || !args.json_schema;
            &&& runs.len() == (if schema && types {
                2int
            } else {
                1int
            })
            &&& schema ==> runs[0].generator == "generate-json-schema"@ && runs[0].out_dir
                == crate::paths::joined_path(args.out@, "json-schema"@)
            &&& types ==> runs.last().generator == "generate-ts"@ && runs.last().out_dir
                == crate::paths::joined_path(args.out@, "typescript"@)
        }),
        forall|i: int|
            0 <= i < export_runs(args).len() ==> {
                let run = #[trigger] export_runs(args)[i];
                &&& run.args.len() == (if args.experimental {
                    5int
                } else {
                    4int
                })
                &&& run.args[0] == "app-server"@
                &&& run.args[1] == run.generator
                &&& run.args[2] == "--out"@
                &&& run.args[3] == run.out_dir
                &&& args.experimental ==> run.args[4] == "--experimental"@
            },
{
}

} // verus!
