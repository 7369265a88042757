//! The arguments handed to `buildah` and the reading of what it prints.

use vstd::prelude::*;
use vstd::string::*;
use crate::text::{joined, trim, trimmed};

verus! {

/// The host operating system, which decides where `buildah` keeps its storage.
#[derive(Clone, Copy, Debug, PartialEq, Eq, Structural)]
pub enum Platform {
    Linux,
    MacOs,
}

/// The views of a list of strings.
pub open spec fn string_texts(v: Seq<String>) -> Seq<Seq<char>> {
    v.map_values(|s: String| s@)
}

/// The storage options: none on Linux; on macOS the root and run root under
/// the configured storage volume.
pub open spec fn storage_args(storage_volume: Seq<char>, platform: Platform) -> Seq<Seq<char>> {
    match platform {
        Platform::Linux => Seq::empty(),
        Platform::MacOs => seq![
            "--root"@,
            storage_volume + "/root"@,
            "--runroot"@,
            storage_volume + "/runroot"@,
        ],
    }
}

/// The arguments that create a container from `image`.
pub open spec fn from_args(storage_volume: Seq<char>, image: Seq<char>, platform: Platform) -> Seq<Seq<char>> {
    match platform {
        Platform::Linux => seq!["from"@, image],
        Platform::MacOs => storage_args(storage_volume, platform) + seq!["from"@, "--os"@, "linux"@, image],
    }
}

/// The arguments that apply `verb` (such as `mount`) to `container`.
pub open spec fn container_args(
    storage_volume: Seq<char>,
    verb: Seq<char>,
    container: Seq<char>,
    platform: Platform,
) -> Seq<Seq<char>> {
    storage_args(storage_volume, platform) + seq![verb, container]
}

fn push_storage_args(args: &mut Vec<String>, storage_volume: &str, platform: Platform)
    requires
        old(args)@.len() == 0,
    ensures
        string_texts(final(args)@) == storage_args(storage_volume@, platform),
{
    match platform {
        Platform::Linux => {},
        Platform::MacOs => {
            args.push(String::from_str("--root"));
            args.push(joined(storage_volume, "/root"));
            args.push(String::from_str("--runroot"));
            args.push(joined(storage_volume, "/runroot"));
        },
    }
    assert(string_texts(args@) =~= storage_args(storage_volume@, platform));
}

/// The arguments of `buildah` that create a container from `image`.
pub fn buildah_from_args(storage_volume: &str, image: &str, platform: Platform) -> (r: Vec<String>)
    ensures
        string_texts(r@) == from_args(storage_volume@, image@, platform),
{
    let mut args: Vec<String> = Vec::new();
    push_storage_args(&mut args, storage_volume, platform);
    let ghost pre = args@;
    args.push(String::from_str("from"));
    match platform {
        Platform::Linux => {},
        Platform::MacOs => {
            args.push(String::from_str("--os"));
            args.push(String::from_str("linux"));
        },
    }
    args.push(String::from_str(image));
    proof {
        let st = storage_args(storage_volume@, platform);
        assert(pre.len() == st.len());
        assert(forall|i: int| 0 <= i < pre.len() ==> #[trigger] pre[i]@ == st[i]) by {
            assert forall|i: int| 0 <= i < pre.len() implies #[trigger] pre[i]@ == st[i] by {
                assert(string_texts(pre)[i] == pre[i]@);
            }
        }
        assert forall|i: int| 0 <= i < pre.len() implies args@[i] == pre[i] by {}
        assert(string_texts(args@) =~= from_args(storage_volume@, image@, platform));
    }
    args
}

/// The arguments of `buildah` that apply `verb` to `container`; `mount`
/// gives the root file system of the container.
pub fn buildah_container_args(storage_volume: &str, verb: &str, container: &str, platform: Platform) -> (r: Vec<String>)
    ensures
        string_texts(r@) == container_args(storage_volume@, verb@, container@, platform),
{
    let mut args: Vec<String> = Vec::new();
    push_storage_args(&mut args, storage_volume, platform);
    args.push(String::from_str(verb));
    args.push(String::from_str(container));
    assert(string_texts(args@) =~= container_args(storage_volume@, verb@, container@, platform));
    args
}

/// The arguments that apply a verb to a container: on Linux the verb and the
/// container alone; on macOS the root and run root under the storage volume
/// first, whatever the verb.
pub proof fn law_container_args_shape(storage_volume: Seq<char>, verb: Seq<char>, container: Seq<char>)
    ensures
        container_args(storage_volume, verb, container, Platform::Linux) == seq![verb, container],
        container_args(storage_volume, verb, container, Platform::MacOs) == seq![
            "--root"@,
            storage_volume + "/root"@,
            "--runroot"@,
            storage_volume + "/runroot"@,
            verb,
            container,
        ],
{
    assert(container_args(storage_volume, verb, container, Platform::Linux) =~= seq![verb, container]);
    assert(container_args(storage_volume, verb, container, Platform::MacOs) =~= seq![
        "--root"@,
        storage_volume + "/root"@,
        "--runroot"@,
        storage_volume + "/runroot"@,
        verb,
        container,
    ]);
}

/// Two verbs applied to one container on one platform are handed the same
/// storage options: the arguments differ only in the verb.
pub proof fn law_container_args_verb_only(
    storage_volume: Seq<char>,
    verb1: Seq<char>,
    verb2: Seq<char>,
    container: Seq<char>,
    platform: Platform,
)
    ensures
        container_args(storage_volume, verb1, container, platform).len()
            == container_args(storage_volume, verb2, container, platform).len(),
        container_args(storage_volume, verb1, container, platform)
            == container_args(storage_volume, verb2, container, platform).update(
            container_args(storage_volume, verb2, container, platform).len() - 2,
            verb1,
        ),
{
    law_container_args_shape(storage_volume, verb1, container);
    law_container_args_shape(storage_volume, verb2, container);
    match platform {
        Platform::Linux => {
            assert(seq![verb1, container] =~= seq![verb2, container].update(0, verb1));
        },
        Platform::MacOs => {
            let a = seq!["--root"@, storage_volume + "/root"@, "--runroot"@, storage_volume + "/runroot"@, verb1, container];
            let b = seq!["--root"@, storage_volume + "/root"@, "--runroot"@, storage_volume + "/runroot"@, verb2, container];
            assert(a =~= b.update(4, verb1));
        },
    }
}

/// The arguments that create a container from an image: `from` and the
/// image on Linux; on macOS the storage options, `from`, `--os linux` and
/// the image.
pub proof fn law_from_args_shape(storage_volume: Seq<char>, image: Seq<char>)
    ensures
        from_args(storage_volume, image, Platform::Linux) == seq!["from"@, image],
        from_args(storage_volume, image, Platform::MacOs) == seq![
            "--root"@,
            storage_volume + "/root"@,
            "--runroot"@,
            storage_volume + "/runroot"@,
            "from"@,
            "--os"@,
            "linux"@,
            image,
        ],
{
    assert(from_args(storage_volume, image, Platform::MacOs) =~= seq![
        "--root"@,
        storage_volume + "/root"@,
        "--runroot"@,
        storage_volume + "/runroot"@,
        "from"@,
        "--os"@,
        "linux"@,
        image,
    ]);
}

/// `buildah` ended with a failure; what it printed on its standard output.
#[derive(Debug)]
pub enum BuildahError {
    Failed(String),
}

/// Reads what `buildah` printed: its exit code (none when it was stopped by
/// a signal, which counts as -1) must be 0, and then the printed text without
/// surrounding white space is the answer (a container or a mount point).
pub fn read_buildah_output(code: Option<i32>, stdout: &str) -> (r: Result<String, BuildahError>)
    ensures
        match r {
            Ok(s) => code == Some(0i32) && s@ == trimmed(stdout@),
            Err(BuildahError::Failed(out)) => code != Some(0i32) && out@ == stdout@,
        },
{
    let exit_code = match code {
        Some(c) => c,
        None => -1,
    };
    if exit_code != 0 {
        Err(BuildahError::Failed(String::from_str(stdout)))
    } else {
        Ok(trim(stdout))
    }
}

} // verus!
