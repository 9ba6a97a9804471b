//! Executables and code-object readers.
use crate::code_object::load::{agent_loadable, binds, load_agent_image, text_of, LaunchAbi, LoadableKernel, TextScan};
use crate::code_object::metadata::{inspect_ok, inspected, CodeObjectInfo, InfoSpec};
use crate::text::cat;
use vstd::prelude::*;

verus! {

/// A code-object reader over owned bytes.
#[derive(Debug, Clone)]
pub struct CodeObjectReader {
    pub bytes: Vec<u8>,
}

/// An executable symbol (kernel).
#[derive(Debug, Clone)]
pub struct ExecutableSymbol {
    pub name: String,
    pub symbol: String,
    pub kernel_object: u64,
    pub kernarg_segment_size: u32,
    pub kernarg_segment_align: u32,
    pub group_segment_size: u32,
    pub private_segment_size: u32,
    pub launch_abi: LaunchAbi,
}

/// An executable: unfrozen, then loaded, then frozen.
#[derive(Debug, Clone)]
pub struct SoftGpuExecutable {
    pub frozen: bool,
    pub symbols: Vec<ExecutableSymbol>,
}

/// Parse agent code-object bytes into loadable kernels; a failure is the
/// load error's description.
pub fn parse_agent_kernels(bytes: &[u8]) -> (r: Result<Vec<LoadableKernel>, String>)
    ensures
        crate::code_object::elf::header_fault(bytes@) is Some ==> r is Err,
        text_of(bytes@) is Missing ==> r is Err,
        inspected(bytes@) matches Some(
            InfoSpec::Fail(_),
        ) ==> r is Err,
        inspected(bytes@) matches Some(
            InfoSpec::Info { kernels, .. },
        ) && kernels.len() != 1 ==> r is Err,
        agent_loadable(bytes@) ==> r is Ok,
        r matches Ok(ks) ==> ks@.len() == 1 && ks@[0].launch_abi == LaunchAbi::SoftGpuCc,
        r matches Ok(ks) ==> exists|info: CodeObjectInfo|
            #[trigger] inspect_ok(bytes@, info) && info.kernels@.len() == 1 && (
            text_of(bytes@) matches TextScan::Found(t)
                && binds(ks@[0], info.kernels@[0], t)),
{
    match load_agent_image(bytes) {
        Ok(img) => {
            proof {
                assert(inspect_ok(bytes@, img.info));
            }
            Ok(img.kernels)
        },
        Err(e) => Err(e.describe()),
    }
}

/// Lookup keys of a symbol: its name, its symbol, and the symbol without a
/// trailing `.kd` (as HIP strips it).
pub open spec fn symbol_keys(s: ExecutableSymbol) -> Seq<Seq<char>> {
    let base = seq![s.name@, s.symbol@];
    if s.symbol@.len() >= 3 && s.symbol@.subrange(s.symbol@.len() - 3, s.symbol@.len() as int) == ".kd"@ {
        base.push(s.symbol@.subrange(0, s.symbol@.len() - 3))
    } else {
        base
    }
}

/// The (key, index) entries for `symbols`, in insertion order.
pub open spec fn index_entries(symbols: Seq<ExecutableSymbol>) -> Seq<(Seq<char>, usize)>
    decreases symbols.len(),
{
    if symbols.len() == 0 {
        Seq::empty()
    } else {
        let i = (symbols.len() - 1) as usize;
        index_entries(symbols.drop_last()) + symbol_keys(symbols.last()).map_values(|k: Seq<char>| (k, i))
    }
}

/// Index symbols by name, by symbol, and by symbol without `.kd`. Entries
/// come in insertion order; a later entry for the same key wins.
pub fn index_symbols(symbols: &[ExecutableSymbol]) -> (r: Vec<(String, usize)>)
    ensures
        r@.map_values(|e: (String, usize)| (e.0@, e.1)) == index_entries(symbols@),
{
    let mut out: Vec<(String, usize)> = Vec::new();
    let mut i: usize = 0;
    while i < symbols.len()
        invariant
            i <= symbols@.len(),
            out@.map_values(|e: (String, usize)| (e.0@, e.1)) == index_entries(symbols@.subrange(0, i as int)),
        decreases symbols@.len() - i,
    {
        let s = &symbols[i];
        let ghost before = out@.map_values(|e: (String, usize)| (e.0@, e.1));
        out.push((s.name.clone(), i));
        out.push((s.symbol.clone(), i));
        let n = s.symbol.unicode_len();
        let stripped = if n >= 3 && crate::text::str_eq(s.symbol.as_str().substring_char(n - 3, n), ".kd") {
            Some(s.symbol.as_str().substring_char(0, n - 3))
        } else {
            None
        };
        if let Some(t) = stripped {
            out.push((crate::text::owned(t), i));
        }
        assert(symbols@.subrange(0, i + 1).drop_last() =~= symbols@.subrange(0, i as int));
        assert(out@.map_values(|e: (String, usize)| (e.0@, e.1)) =~= before + symbol_keys(symbols@[i as int]).map_values(
            |k: Seq<char>| (k, i),
        ));
        i = i + 1;
    }
    assert(symbols@.subrange(0, symbols@.len() as int) =~= symbols@);
    out
}

} // verus!
