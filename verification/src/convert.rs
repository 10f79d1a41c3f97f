//! Argument vectors and exit-status contracts for the external raster and
//! archive tools.

use vstd::prelude::*;

use crate::errors::PipelineError;
use crate::job::Conversion;
use crate::text::dup_bytes;

verus! {

/// `convert` — the raster tool's subcommand.
pub open spec fn word_convert() -> Seq<u8> {
    seq![99u8, 111, 110, 118, 101, 114, 116]
}

/// `-geometry`.
pub open spec fn word_geometry() -> Seq<u8> {
    seq![45u8, 103, 101, 111, 109, 101, 116, 114, 121]
}

/// `-quality`.
pub open spec fn word_quality() -> Seq<u8> {
    seq![45u8, 113, 117, 97, 108, 105, 116, 121]
}

/// `-define`.
pub open spec fn word_define() -> Seq<u8> {
    seq![45u8, 100, 101, 102, 105, 110, 101]
}

/// `--recurse-paths`.
pub open spec fn word_recurse() -> Seq<u8> {
    seq![45u8, 45, 114, 101, 99, 117, 114, 115, 101, 45, 112, 97, 116, 104, 115]
}

/// The full argument vector of one raster-tool invocation: source,
/// geometry, quality, the optional codec define, and the destination.
pub open spec fn convert_argv(
    source: Seq<u8>,
    dest: Seq<u8>,
    geometry: Seq<u8>,
    quality: Seq<u8>,
    define: Option<Seq<u8>>,
) -> Seq<Seq<u8>> {
    let head = seq![word_convert(), source, word_geometry(), geometry, word_quality(), quality];
    let mid = match define {
        Some(d) => seq![word_define(), d],
        None => Seq::<Seq<u8>>::empty(),
    };
    head + mid + seq![dest]
}

/// The full argument vector of one archive-tool invocation: recursive add
/// of the working directory into the target archive.
pub open spec fn repack_argv(target: Seq<u8>) -> Seq<Seq<u8>> {
    seq![word_recurse(), target, seq![crate::paths::DOT]]
}

/// `gm` — the raster tool's program name.
pub fn converter_program() -> (r: Vec<u8>)
    ensures
        r@ == seq![103u8, 109],
{
    let v = vec![103u8, 109];
    proof {
        assert(v@ =~= seq![103u8, 109]);
    }
    v
}

/// `zip` — the archive tool's program name.
pub fn archiver_program() -> (r: Vec<u8>)
    ensures
        r@ == seq![122u8, 105, 112],
{
    let v = vec![122u8, 105, 112];
    proof {
        assert(v@ =~= seq![122u8, 105, 112]);
    }
    v
}

/// Builds the raster tool's argument vector for one image.
pub fn build_convert_args(src: &[u8], dest: &[u8], cfg: &Conversion) -> (args: Vec<Vec<u8>>)
    ensures
        args@.map_values(|v: Vec<u8>| v@) == convert_argv(
            src@,
            dest@,
            cfg.geometry@,
            cfg.quality@,
            crate::job::define_view(*cfg),
        ),
{
    let mut args: Vec<Vec<u8>> = Vec::new();
    let w = vec![99u8, 111, 110, 118, 101, 114, 116];
    args.push(w);
    args.push(dup_bytes(src));
    let g = vec![45u8, 103, 101, 111, 109, 101, 116, 114, 121];
    args.push(g);
    args.push(dup_bytes(cfg.geometry.as_slice()));
    let q = vec![45u8, 113, 117, 97, 108, 105, 116, 121];
    args.push(q);
    args.push(dup_bytes(cfg.quality.as_slice()));
    match &cfg.define {
        Some(d) => {
            let dw = vec![45u8, 100, 101, 102, 105, 110, 101];
            args.push(dw);
            args.push(dup_bytes(d.as_slice()));
        },
        None => {},
    }
    args.push(dup_bytes(dest));
    proof {
        let view_of = |v: Vec<u8>| v@;
        let target = convert_argv(
            src@,
            dest@,
            cfg.geometry@,
            cfg.quality@,
            crate::job::define_view(*cfg),
        );
        assert(args@.map_values(view_of).len() == target.len());
        assert forall|i: int|
            0 <= i < target.len() implies args@.map_values(view_of)[i] == target[i] by {
            assert(args@.map_values(view_of)[i] == args@[i]@);
        }
        assert(args@.map_values(view_of) =~= target);
    }
    args
}

/// Builds the archive tool's argument vector for the repack step.
pub fn build_repack_args(target: &[u8]) -> (args: Vec<Vec<u8>>)
    ensures
        args@.map_values(|v: Vec<u8>| v@) == repack_argv(target@),
{
    let mut args: Vec<Vec<u8>> = Vec::new();
    let w = vec![45u8, 45, 114, 101, 99, 117, 114, 115, 101, 45, 112, 97, 116, 104, 115];
    args.push(w);
    args.push(dup_bytes(target));
    let dot = vec![46u8];
    args.push(dot);
    proof {
        let view_of = |v: Vec<u8>| v@;
        assert(args@.map_values(view_of).len() == repack_argv(target@).len());
        assert forall|i: int|
            0 <= i < repack_argv(target@).len() implies args@.map_values(view_of)[i]
            == repack_argv(target@)[i] by {
            assert(args@.map_values(view_of)[i] == args@[i]@);
        }
        assert(args@.map_values(view_of) =~= repack_argv(target@));
    }
    args
}

/// Maps the raster tool's exit status: success exactly on a zero status;
/// otherwise a `Conversion` error carrying the tool's diagnostic output.
pub fn conversion_outcome(success: bool, diagnostic: &[u8]) -> (r: Result<(), PipelineError>)
    ensures
        (match r {
            Ok(_) => true,
            Err(_) => false,
        }) == success,
        match r {
            Ok(_) => true,
            Err(e) => e matches PipelineError::Conversion { diagnostic: d } && d@ == diagnostic@,
        },
{
    if success {
        Ok(())
    } else {
        Err(PipelineError::Conversion { diagnostic: dup_bytes(diagnostic) })
    }
}

/// Maps the archive tool's exit status: success exactly on a zero status;
/// otherwise a `Repack` error carrying the tool's diagnostic output.
pub fn repack_outcome(success: bool, diagnostic: &[u8]) -> (r: Result<(), PipelineError>)
    ensures
        (match r {
            Ok(_) => true,
            Err(_) => false,
        }) == success,
        match r {
            Ok(_) => true,
            Err(e) => e matches PipelineError::Repack { diagnostic: d } && d@ == diagnostic@,
        },
{
    if success {
        Ok(())
    } else {
        Err(PipelineError::Repack { diagnostic: dup_bytes(diagnostic) })
    }
}

} // verus!
