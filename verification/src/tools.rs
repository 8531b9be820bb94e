//! Choosing and fetching a speech model: which models there are, which one
//! suits a machine, and where a model is downloaded from.

use vstd::prelude::*;
use vstd::string::StringExecFns;
use crate::text::{chars_of, find_first, first_match, same_chars};
use crate::whisper::HAWhisperError;

verus! {

/// What a machine computes the model on.
#[derive(Clone, Copy, Debug, PartialEq, Eq, Structural)]
pub enum Backend {
    AppleSilicon,
    IntelMac,
    Cuda,
    Vulkan,
    CPUOnly,
}

/// The backend of a build: macOS comes before the accelerators it does not
/// have, and CUDA before Vulkan.
pub fn resolve_backend(macos: bool, aarch64: bool, cuda: bool, vulkan: bool) -> (backend: Backend)
    ensures
        backend == (if macos && aarch64 {
            Backend::AppleSilicon
        } else if macos {
            Backend::IntelMac
        } else if cuda {
            Backend::Cuda
        } else if vulkan {
            Backend::Vulkan
        } else {
            Backend::CPUOnly
        }),
{
    if macos && aarch64 {
        Backend::AppleSilicon
    } else if macos {
        Backend::IntelMac
    } else if cuda {
        Backend::Cuda
    } else if vulkan {
        Backend::Vulkan
    } else {
        Backend::CPUOnly
    }
}

/// Whole gibibytes in `bytes`.
pub fn ram_in_gb(bytes: u64) -> (gb: u64)
    ensures
        gb == bytes / 1024 / 1024 / 1024,
{
    bytes / 1024 / 1024 / 1024
}

/// The model recommended for a machine with `total_ram_gb` gibibytes of
/// memory, with or without AVX2, computing on `backend`.
pub open spec fn recommended(backend: Backend, total_ram_gb: u64, avx2: bool) -> Seq<char> {
    match backend {
        Backend::AppleSilicon => if total_ram_gb <= 7 {
            "base"@
        } else if total_ram_gb <= 16 {
            "small"@
        } else if total_ram_gb <= 32 {
            "medium"@
        } else if total_ram_gb <= 64 {
            "large"@
        } else {
            "large-v3"@
        },
        Backend::IntelMac => if total_ram_gb >= 16 && avx2 {
            "medium"@
        } else {
            "base"@
        },
        Backend::Cuda => "large-v3"@,
        Backend::Vulkan => if total_ram_gb >= 8 {
            "medium"@
        } else {
            "small"@
        },
        Backend::CPUOnly => if total_ram_gb >= 8 && avx2 {
            "small"@
        } else {
            "base"@
        },
    }
}

/// Recommends a model for a machine.
pub fn recommend_model(backend: Backend, total_ram_gb: u64, avx2: bool) -> (model: &'static str)
    ensures
        model@ == recommended(backend, total_ram_gb, avx2),
{
    match backend {
        Backend::AppleSilicon => if total_ram_gb <= 7 {
            "base"
        } else if total_ram_gb <= 16 {
            "small"
        } else if total_ram_gb <= 32 {
            "medium"
        } else if total_ram_gb <= 64 {
            "large"
        } else {
            "large-v3"
        },
        Backend::IntelMac => if total_ram_gb >= 16 && avx2 {
            "medium"
        } else {
            "base"
        },
        Backend::Cuda => "large-v3",
        Backend::Vulkan => if total_ram_gb >= 8 {
            "medium"
        } else {
            "small"
        },
        Backend::CPUOnly => if total_ram_gb >= 8 && avx2 {
            "small"
        } else {
            "base"
        },
    }
}

/// The names of the models that can be downloaded.
pub open spec fn model_names() -> Seq<Seq<char>> {
    seq![
        "tiny"@,
        "tiny.en"@,
        "tiny-q5_1"@,
        "tiny.en-q5_1"@,
        "tiny-q8_0"@,
        "base"@,
        "base.en"@,
        "base-q5_1"@,
        "base.en-q5_1"@,
        "base-q8_0"@,
        "small"@,
        "small.en"@,
        "small.en-tdrz"@,
        "small-q5_1"@,
        "small.en-q5_1"@,
        "small-q8_0"@,
        "medium"@,
        "medium.en"@,
        "medium-q5_0"@,
        "medium.en-q5_0"@,
        "medium-q8_0"@,
        "large-v1"@,
        "large-v2"@,
        "large-v2-q5_0"@,
        "large-v2-q8_0"@,
        "large-v3"@,
        "large-v3-q5_0"@,
        "large-v3-turbo"@,
        "large-v3-turbo-q5_0"@,
        "large-v3-turbo-q8_0"@,
    ]
}

/// The names of the models that can be downloaded.
pub fn available_models() -> (names: Vec<&'static str>)
    ensures
        names@.len() == model_names().len(),
        forall|k: int| 0 <= k < names@.len() ==> (#[trigger] names@[k])@ == model_names()[k],
{
    vec![
        "tiny",
        "tiny.en",
        "tiny-q5_1",
        "tiny.en-q5_1",
        "tiny-q8_0",
        "base",
        "base.en",
        "base-q5_1",
        "base.en-q5_1",
        "base-q8_0",
        "small",
        "small.en",
        "small.en-tdrz",
        "small-q5_1",
        "small.en-q5_1",
        "small-q8_0",
        "medium",
        "medium.en",
        "medium-q5_0",
        "medium.en-q5_0",
        "medium-q8_0",
        "large-v1",
        "large-v2",
        "large-v2-q5_0",
        "large-v2-q8_0",
        "large-v3",
        "large-v3-q5_0",
        "large-v3-turbo",
        "large-v3-turbo-q5_0",
        "large-v3-turbo-q8_0",
    ]
}

/// Whether `model` is the name of a model that can be downloaded.
pub fn is_available_model(model: &str) -> (available: bool)
    ensures
        available == model_names().contains(model@),
{
    let names = available_models();
    let wanted = chars_of(model);
    let mut k: usize = 0;
    while k < names.len()
        invariant
            k <= names.len(),
            wanted@ == model@,
            names@.len() == model_names().len(),
            forall|j: int| 0 <= j < names@.len() ==> (#[trigger] names@[j])@ == model_names()[j],
            forall|j: int| 0 <= j < k ==> #[trigger] model_names()[j] != model@,
        decreases names.len() - k,
    {
        let name = chars_of(names[k]);
        if same_chars(&name, &wanted) {
            assert(model_names()[k as int] == model@);
            return true;
        }
        k = k + 1;
    }
    false
}

/// Refuses the name of a model that cannot be downloaded.
pub fn check_model(model: &str) -> (checked: Result<(), HAWhisperError>)
    ensures
        model_names().contains(model@) ==> checked is Ok,
        !model_names().contains(model@) ==> (checked matches Err(
            HAWhisperError::InvalidModelName(name),
        ) && name@ == model@),
{
    if !is_available_model(model) {
        return Err(HAWhisperError::InvalidModelName(String::from_str(model)));
    }
    Ok(())
}

/// Whether a model is one of those with speaker turns, which are kept in
/// a repository of their own: their names hold `tdrz`.
pub open spec fn marks_speaker_turns(model: Seq<char>) -> bool {
    first_match(model, "tdrz"@) is Some
}

/// The repository that holds `model`, and the path to its files in it.
pub fn determine_download_url(model: &str) -> (place: (&'static str, &'static str))
    ensures
        place.0@ == (if marks_speaker_turns(model@) {
            "https://huggingface.co/akashmjn/tinydiarize-whisper.cpp"@
        } else {
            "https://huggingface.co/ggerganov/whisper.cpp"@
        }),
        place.1@ == "resolve/main/ggml"@,
{
    let name = chars_of(model);
    let mark = chars_of("tdrz");
    match find_first(&name, &mark) {
        Some(_) => ("https://huggingface.co/akashmjn/tinydiarize-whisper.cpp", "resolve/main/ggml"),
        None => ("https://huggingface.co/ggerganov/whisper.cpp", "resolve/main/ggml"),
    }
}

/// The name of the file that holds `model`.
pub fn model_file_name(model: &str) -> (name: String)
    ensures
        name@ == model@ + ".bin"@,
{
    let mut name = String::from_str(model);
    name.append(".bin");
    name
}

/// The address that `model` is downloaded from: its repository, the path
/// to the files, and the model's name between a hyphen and `.bin`.
pub fn model_url(model: &str) -> (url: String)
    ensures
        ({
            let base = if marks_speaker_turns(model@) {
                "https://huggingface.co/akashmjn/tinydiarize-whisper.cpp"@
            } else {
                "https://huggingface.co/ggerganov/whisper.cpp"@
            };
            url@ == base + "/"@ + "resolve/main/ggml"@ + "-"@ + model@ + ".bin"@
        }),
{
    let (base_url, prefix) = determine_download_url(model);
    let mut url = String::from_str(base_url);
    url.append("/");
    url.append(prefix);
    url.append("-");
    url.append(model);
    url.append(".bin");
    url
}

/// Whether an HTTP status reports success: the statuses from 200 to 299 do.
pub fn check_status(status: u16) -> (checked: Result<(), HAWhisperError>)
    ensures
        200 <= status < 300 ==> checked is Ok,
        !(200 <= status < 300) ==> (checked matches Err(HAWhisperError::HttpStatus(refused))
            && refused == status),
{
    if 200 <= status && status < 300 {
        Ok(())
    } else {
        Err(HAWhisperError::HttpStatus(status))
    }
}

} // verus!
