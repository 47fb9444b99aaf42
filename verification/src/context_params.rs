//! The parameters with which the audio server creates its audio context.

use vstd::prelude::*;

verus! {

/// The context name used when the client gives none: the ASCII bytes of
/// "AudioIPC Server".
pub open spec fn default_context_name() -> Seq<u8> {
    seq![65u8, 117, 100, 105, 111, 73, 80, 67, 32, 83, 101, 114, 118, 101, 114]
}

/// Names for the audio context: the context's own name and, optionally, the
/// backend to use (C strings, as bytes without the terminating NUL).
pub struct ContextParams {
    pub context_name: Vec<u8>,
    pub backend_name: Option<Vec<u8>>,
}

/// The parameters before any client has set them: the default context name
/// and no backend.
pub fn default_context_params() -> (p: ContextParams)
    ensures
        p.context_name@ == default_context_name(),
        p.backend_name is None,
{
    let name: Vec<u8> = vec![65u8, 117, 100, 105, 111, 73, 80, 67, 32, 83, 101, 114, 118, 101, 114];
    assert(name@ =~= default_context_name());
    ContextParams { context_name: name, backend_name: None }
}

/// Apply the names given when the server starts: a name that is given
/// (`Some`, from a non-null pointer) replaces the current one; one that is
/// not given leaves it as it is.
pub fn apply_start_names(
    params: &mut ContextParams,
    context_name: Option<Vec<u8>>,
    backend_name: Option<Vec<u8>>,
)
    ensures
        final(params).context_name@ == (match context_name {
            Some(n) => n@,
            None => old(params).context_name@,
        }),
        final(params).backend_name == (match backend_name {
            Some(b) => Some(b),
            None => old(params).backend_name,
        }),
{
    if let Some(name) = context_name {
        params.context_name = name;
    }
    if let Some(backend) = backend_name {
        params.backend_name = Some(backend);
    }
}

} // verus!
