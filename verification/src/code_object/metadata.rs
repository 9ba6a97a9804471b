//! AMDHSA MessagePack metadata extraction (code-object V3+ subset).
use super::elf::{header_fault, note_sections_spec, section_bytes_spec, Elf64File};
use super::error::{CodeObjectError, CodeObjectErrorKind};
use super::msgpack::{self, lemma_view_entries_index, lemma_view_values_index, parse_spec, view_entries, view_values, Value, ValueView};
use super::note::{find_amdgpu_metadata_note, find_note_from, NoteScan};
use crate::bytes::le64;
use crate::text::{cat, owned};
use vstd::prelude::*;

verus! {

/// Required substring of `amdhsa.target`.
pub const SUPPORTED_GFX_SUBSTRING: &'static str = "gfx1201";

/// Metadata key of a kernel argument's source-level type.
pub const ARG_TYPE_KEY: &'static str = ".type\u{5f}name";

#[derive(Debug, Clone, Copy, PartialEq, Eq)]
pub struct MetadataVersion {
    pub major: u32,
    pub minor: u32,
}

#[derive(Debug, Clone, PartialEq, Eq)]
pub struct KernelArgInfo {
    pub name: Option<String>,
    pub arg_type_name: Option<String>,
    pub offset: u32,
    pub size: u32,
    pub value_kind: String,
    pub address_space: Option<String>,
}

#[derive(Debug, Clone, PartialEq, Eq)]
pub struct KernelInfo {
    pub name: String,
    pub symbol: Option<String>,
    pub kernarg_segment_size: u32,
    pub kernarg_segment_align: u32,
    pub group_segment_fixed_size: u32,
    pub private_segment_fixed_size: u32,
    pub args: Vec<KernelArgInfo>,
}

#[derive(Debug, Clone, PartialEq, Eq)]
pub struct CodeObjectInfo {
    pub metadata_version: MetadataVersion,
    pub target: String,
    pub kernels: Vec<KernelInfo>,
    pub note_desc_len: usize,
    pub fidelity: &'static str,
    pub note: &'static str,
}

pub struct KernelArgView {
    pub name: Option<Seq<char>>,
    pub arg_type_name: Option<Seq<char>>,
    pub offset: u32,
    pub size: u32,
    pub value_kind: Seq<char>,
    pub address_space: Option<Seq<char>>,
}

pub struct KernelView {
    pub name: Seq<char>,
    pub symbol: Option<Seq<char>>,
    pub kernarg_segment_size: u32,
    pub kernarg_segment_align: u32,
    pub group_segment_fixed_size: u32,
    pub private_segment_fixed_size: u32,
    pub args: Seq<KernelArgView>,
}

pub open spec fn opt_string_view(o: Option<String>) -> Option<Seq<char>> {
    match o {
        Some(s) => Some(s@),
        None => None,
    }
}

impl KernelArgInfo {
    pub open spec fn view(self) -> KernelArgView {
        KernelArgView {
            name: opt_string_view(self.name),
            arg_type_name: opt_string_view(self.arg_type_name),
            offset: self.offset,
            size: self.size,
            value_kind: self.value_kind@,
            address_space: opt_string_view(self.address_space),
        }
    }
}

impl KernelInfo {
    pub open spec fn view(self) -> KernelView {
        KernelView {
            name: self.name@,
            symbol: opt_string_view(self.symbol),
            kernarg_segment_size: self.kernarg_segment_size,
            kernarg_segment_align: self.kernarg_segment_align,
            group_segment_fixed_size: self.group_segment_fixed_size,
            private_segment_fixed_size: self.private_segment_fixed_size,
            args: self.args@.map_values(|a: KernelArgInfo| a.view()),
        }
    }
}

/// First entry of `m` with key `k`.
pub open spec fn dict_get(m: Seq<(Seq<char>, ValueView)>, k: Seq<char>) -> Option<ValueView>
    decreases m.len(),
{
    if m.len() == 0 {
        None
    } else if m[0].0 == k {
        Some(m[0].1)
    } else {
        dict_get(m.drop_first(), k)
    }
}

/// A non-negative integer that fits in 32 bits.
pub open spec fn as_u32_spec(v: ValueView) -> Option<u32> {
    match v {
        ValueView::U64(n) => if n <= u32::MAX { Some(n as u32) } else { None },
        ValueView::I64(n) => if 0 <= n <= u32::MAX { Some(n as u32) } else { None },
        _ => None,
    }
}

pub open spec fn opt_str_spec(m: Seq<(Seq<char>, ValueView)>, k: Seq<char>) -> Option<Seq<char>> {
    match dict_get(m, k) {
        Some(ValueView::Str(s)) => Some(s),
        _ => None,
    }
}

/// `Some(None)` when absent, `Some(Some(n))` when a valid u32, `None` when present but invalid.
pub open spec fn opt_u32_spec(m: Seq<(Seq<char>, ValueView)>, k: Seq<char>) -> Option<Option<u32>> {
    match dict_get(m, k) {
        None => Some(None),
        Some(v) => match as_u32_spec(v) {
            Some(n) => Some(Some(n)),
            None => None,
        },
    }
}

pub open spec fn u32_or(o: Option<u32>, d: u32) -> u32 {
    match o {
        Some(n) => n,
        None => d,
    }
}

pub open spec fn arg_spec(v: ValueView) -> Option<KernelArgView> {
    match v {
        ValueView::Dict(am) => {
            match (opt_u32_spec(am, ".offset"@), opt_u32_spec(am, ".size"@)) {
                (Some(off), Some(sz)) => Some(
                    KernelArgView {
                        name: opt_str_spec(am, ".name"@),
                        arg_type_name: opt_str_spec(am, ARG_TYPE_KEY@),
                        offset: u32_or(off, 0),
                        size: u32_or(sz, 0),
                        value_kind: match opt_str_spec(am, ".value_kind"@) {
                            Some(s) => s,
                            None => "unknown"@,
                        },
                        address_space: opt_str_spec(am, ".address_space"@),
                    },
                ),
                _ => None,
            }
        },
        _ => None,
    }
}

/// The string stored under key `k` of a metadata map, if it is a string.
pub open spec fn str_entry(m: Seq<(Seq<char>, ValueView)>, k: Seq<char>) -> Option<Seq<char>> {
    match dict_get(m, k) {
        Some(ValueView::Str(s)) => Some(s),
        _ => None,
    }
}

/// Each field of a parsed kernel argument comes from its own key of the
/// argument's map: the name from `.name`, the type name from the type-name
/// key, the address space from `.address_space`, the value kind from
/// `.value_kind` ("unknown" when absent), and offset and size from `.offset`
/// and `.size` (0 when absent); the argument parses exactly when offset and
/// size are absent or 32-bit non-negative integers.
pub proof fn lemma_arg_fields(am: Seq<(Seq<char>, ValueView)>)
    ensures
        arg_spec(ValueView::Dict(am)) is Some <==> (dict_get(am, ".offset"@) is None || as_u32_spec(
            dict_get(am, ".offset"@)->0,
        ) is Some) && (dict_get(am, ".size"@) is None || as_u32_spec(dict_get(am, ".size"@)->0) is Some),
        arg_spec(ValueView::Dict(am)) matches Some(a) ==> {
            &&& a.name == str_entry(am, ".name"@)
            &&& a.arg_type_name == str_entry(am, ARG_TYPE_KEY@)
            &&& a.address_space == str_entry(am, ".address_space"@)
            &&& a.value_kind == (match dict_get(am, ".value_kind"@) {
                Some(ValueView::Str(s)) => s,
                _ => "unknown"@,
            })
            &&& (dict_get(am, ".offset"@) matches Some(ValueView::U64(n)) ==> a.offset == n)
            &&& (dict_get(am, ".size"@) matches Some(ValueView::U64(n)) ==> a.size == n)
            &&& (dict_get(am, ".offset"@) is None ==> a.offset == 0)
            &&& (dict_get(am, ".size"@) is None ==> a.size == 0)
        },
{
}

/// A `.name` entry in front of an argument's map is its name, and a
/// type-name entry in front changes its type name and nothing of its name.
pub proof fn lemma_arg_name_entry(am: Seq<(Seq<char>, ValueView)>, s: Seq<char>, v: ValueView)
    ensures
        arg_spec(ValueView::Dict(seq![(".name"@, ValueView::Str(s))] + am)) matches Some(a) ==> a.name == Some(s),
        arg_spec(ValueView::Dict(am)) matches Some(a0) ==> (arg_spec(
            ValueView::Dict(seq![(ARG_TYPE_KEY@, v)] + am),
        ) matches Some(a1) && a1.name == a0.name),
{
    reveal_strlit(".name");
    reveal_strlit(".type\u{5f}name");
    reveal_strlit(".offset");
    reveal_strlit(".size");
    let m1 = seq![(".name"@, ValueView::Str(s))] + am;
    assert(m1[0].0 == ".name"@);
    let m2 = seq![(ARG_TYPE_KEY@, v)] + am;
    assert(m2.drop_first() =~= am);
    assert(ARG_TYPE_KEY@.len() == 10);
    assert(ARG_TYPE_KEY@ != ".name"@);
    assert(ARG_TYPE_KEY@[1] != ".offset"@[1]);
    assert(ARG_TYPE_KEY@ != ".offset"@);
    assert(ARG_TYPE_KEY@ != ".size"@);
    assert(dict_get(m2, ".name"@) == dict_get(am, ".name"@));
    assert(dict_get(m2, ".offset"@) == dict_get(am, ".offset"@));
    assert(dict_get(m2, ".size"@) == dict_get(am, ".size"@));
}

pub open spec fn args_spec(a: Seq<ValueView>) -> Option<Seq<KernelArgView>>
    decreases a.len(),
{
    if a.len() == 0 {
        Some(Seq::empty())
    } else {
        match (args_spec(a.drop_last()), arg_spec(a.last())) {
            (Some(prev), Some(x)) => Some(prev.push(x)),
            _ => None,
        }
    }
}

pub open spec fn kernel_spec(v: ValueView) -> Option<KernelView> {
    match v {
        ValueView::Dict(km) => {
            let args = match dict_get(km, ".args"@) {
                None => Some(Seq::empty()),
                Some(ValueView::Array(a)) => args_spec(a),
                Some(_) => None,
            };
            match (
                opt_str_spec(km, ".name"@),
                opt_u32_spec(km, ".kernarg_segment_size"@),
                opt_u32_spec(km, ".kernarg_segment_align"@),
                opt_u32_spec(km, ".group_segment_fixed_size"@),
                opt_u32_spec(km, ".private_segment_fixed_size"@),
                args,
            ) {
                (Some(name), Some(ks), Some(ka), Some(gs), Some(ps), Some(args)) => Some(
                    KernelView {
                        name,
                        symbol: opt_str_spec(km, ".symbol"@),
                        kernarg_segment_size: u32_or(ks, 0),
                        kernarg_segment_align: u32_or(ka, 1),
                        group_segment_fixed_size: u32_or(gs, 0),
                        private_segment_fixed_size: u32_or(ps, 0),
                        args,
                    },
                ),
                _ => None,
            }
        },
        _ => None,
    }
}

pub open spec fn kernels_list_spec(a: Seq<ValueView>) -> Option<Seq<KernelView>>
    decreases a.len(),
{
    if a.len() == 0 {
        Some(Seq::empty())
    } else {
        match (kernels_list_spec(a.drop_last()), kernel_spec(a.last())) {
            (Some(prev), Some(k)) => Some(prev.push(k)),
            _ => None,
        }
    }
}

pub open spec fn kernels_spec(root: Seq<(Seq<char>, ValueView)>) -> Option<Seq<KernelView>> {
    match dict_get(root, "amdhsa.kernels"@) {
        Some(ValueView::Array(a)) => kernels_list_spec(a),
        _ => None,
    }
}

pub open spec fn version_spec(root: Seq<(Seq<char>, ValueView)>) -> Option<(u32, u32)> {
    match dict_get(root, "amdhsa.version"@) {
        Some(ValueView::Array(a)) => if a.len() == 2 {
            match (as_u32_spec(a[0]), as_u32_spec(a[1])) {
                (Some(x), Some(y)) => Some((x, y)),
                _ => None,
            }
        } else {
            None
        },
        _ => None,
    }
}

pub open spec fn version_supported(v: (u32, u32)) -> bool {
    v.0 == 1 && (v.1 == 0 || v.1 == 1 || v.1 == 2)
}

/// `t` contains `p` as a contiguous substring.
pub open spec fn contains_chars(t: Seq<char>, p: Seq<char>) -> bool {
    exists|i: int| 0 <= i && i + p.len() <= t.len() && #[trigger] t.subrange(i, i + p.len()) == p
}

/// Outcome of interpreting a metadata root map (not including ELF/note failures).
pub enum InfoSpec {
    Info { major: u32, minor: u32, target: Seq<char>, kernels: Seq<KernelView> },
    Fail(CodeObjectErrorKind),
}

pub open spec fn info_from_root(root: ValueView) -> InfoSpec {
    match root {
        ValueView::Dict(m) => match version_spec(m) {
            None => InfoSpec::Fail(CodeObjectErrorKind::Metadata),
            Some(v) => if !version_supported(v) {
                InfoSpec::Fail(CodeObjectErrorKind::UnsupportedMetadataVersion)
            } else {
                match dict_get(m, "amdhsa.target"@) {
                    Some(ValueView::Str(t)) => if !contains_chars(t, "gfx1201"@) {
                        InfoSpec::Fail(CodeObjectErrorKind::UnsupportedTarget)
                    } else {
                        match kernels_spec(m) {
                            Some(ks) => InfoSpec::Info { major: v.0, minor: v.1, target: t, kernels: ks },
                            None => InfoSpec::Fail(CodeObjectErrorKind::Metadata),
                        }
                    },
                    _ => InfoSpec::Fail(CodeObjectErrorKind::Metadata),
                }
            }
        },
        _ => InfoSpec::Fail(CodeObjectErrorKind::Metadata),
    }
}

fn get<'v>(m: &'v Vec<(String, Value)>, key: &str) -> (r: Option<&'v Value>)
    ensures
        match dict_get(view_entries(m@), key@) {
            None => r is None,
            Some(v) => r matches Some(x) && x.view() == v,
        },
{
    let k = owned(key);
    proof {
        lemma_view_entries_index(m@);
        assert(view_entries(m@).subrange(0, m@.len() as int) =~= view_entries(m@));
    }
    let mut i: usize = 0;
    while i < m.len()
        invariant
            i <= m@.len(),
            k@ == key@,
            view_entries(m@).len() == m@.len(),
            forall|j: int| 0 <= j < m@.len() ==> #[trigger] view_entries(m@)[j] == (m@[j].0@, m@[j].1.view()),
            dict_get(view_entries(m@), key@) == dict_get(view_entries(m@).subrange(i as int, m@.len() as int), key@),
        decreases m@.len() - i,
    {
        let ghost rest = view_entries(m@).subrange(i as int, m@.len() as int);
        assert(rest.drop_first() =~= view_entries(m@).subrange(i + 1, m@.len() as int));
        if m[i].0 == k {
            return Some(&m[i].1);
        }
        i = i + 1;
    }
    None
}

fn as_u32(v: &Value, ctx: &str) -> (r: Result<u32, CodeObjectError>)
    ensures
        match as_u32_spec(v.view()) {
            Some(n) => r == Ok::<u32, CodeObjectError>(n),
            None => r matches Err(e) && e is Metadata,
        },
{
    match v {
        Value::U64(n) => {
            if *n <= u32::MAX as u64 {
                Ok(*n as u32)
            } else {
                Err(CodeObjectError::Metadata { detail: cat(owned(ctx), " out of u32 range") })
            }
        },
        Value::I64(n) => {
            if *n >= 0 && *n <= u32::MAX as i64 {
                Ok(*n as u32)
            } else if *n >= 0 {
                Err(CodeObjectError::Metadata { detail: cat(owned(ctx), " out of u32 range") })
            } else {
                Err(CodeObjectError::Metadata { detail: cat(owned(ctx), " not an unsigned integer") })
            }
        },
        _ => Err(CodeObjectError::Metadata { detail: cat(owned(ctx), " not an unsigned integer") }),
    }
}

fn optional_string(m: &Vec<(String, Value)>, key: &str) -> (r: Option<String>)
    ensures
        opt_string_view(r) == opt_str_spec(view_entries(m@), key@),
{
    match get(m, key) {
        Some(Value::String(s)) => Some(s.clone()),
        _ => None,
    }
}

fn required_string(m: &Vec<(String, Value)>, key: &str) -> (r: Result<String, CodeObjectError>)
    ensures
        match opt_str_spec(view_entries(m@), key@) {
            Some(s) => r matches Ok(x) && x@ == s,
            None => r matches Err(e) && e is Metadata,
        },
{
    match get(m, key) {
        Some(Value::String(s)) => Ok(s.clone()),
        Some(_) => Err(CodeObjectError::Metadata { detail: cat(owned(key), " not a string") }),
        None => Err(CodeObjectError::Metadata { detail: cat(owned("missing "), key) }),
    }
}

fn optional_u32(m: &Vec<(String, Value)>, key: &str) -> (r: Result<Option<u32>, CodeObjectError>)
    ensures
        match opt_u32_spec(view_entries(m@), key@) {
            Some(o) => r == Ok::<Option<u32>, CodeObjectError>(o),
            None => r matches Err(e) && e is Metadata,
        },
{
    match get(m, key) {
        None => Ok(None),
        Some(v) => Ok(Some(as_u32(v, key)?)),
    }
}

fn unwrap_u32_or(o: Option<u32>, d: u32) -> (r: u32)
    ensures
        r == u32_or(o, d),
{
    match o {
        Some(n) => n,
        None => d,
    }
}

fn parse_arg(arg: &Value) -> (r: Result<KernelArgInfo, CodeObjectError>)
    ensures
        match arg_spec(arg.view()) {
            Some(a) => r matches Ok(x) && x.view() == a,
            None => r matches Err(e) && e is Metadata,
        },
{
    let am = match arg {
        Value::Dict(am) => am,
        _ => {
            return Err(CodeObjectError::Metadata { detail: owned("kernel arg not a map") });
        },
    };
    let offset = unwrap_u32_or(optional_u32(am, ".offset")?, 0);
    let size = unwrap_u32_or(optional_u32(am, ".size")?, 0);
    let value_kind = match optional_string(am, ".value_kind") {
        Some(s) => s,
        None => owned("unknown"),
    };
    Ok(
        KernelArgInfo {
            name: optional_string(am, ".name"),
            arg_type_name: optional_string(am, ARG_TYPE_KEY),
            offset,
            size,
            value_kind,
            address_space: optional_string(am, ".address_space"),
        },
    )
}

fn parse_args(a: &Vec<Value>) -> (r: Result<Vec<KernelArgInfo>, CodeObjectError>)
    ensures
        match args_spec(view_values(a@)) {
            Some(s) => r matches Ok(x) && x@.map_values(|k: KernelArgInfo| k.view()) == s,
            None => r matches Err(e) && e is Metadata,
        },
{
    proof { lemma_view_values_index(a@); }
    let mut out: Vec<KernelArgInfo> = Vec::new();
    let mut j: usize = 0;
    while j < a.len()
        invariant
            j <= a@.len(),
            view_values(a@).len() == a@.len(),
            forall|i: int| 0 <= i < a@.len() ==> #[trigger] view_values(a@)[i] == a@[i].view(),
            args_spec(view_values(a@).subrange(0, j as int)) == Some(out@.map_values(|k: KernelArgInfo| k.view())),
        decreases a@.len() - j,
    {
        let ghost pre = view_values(a@).subrange(0, j as int);
        let ghost next = view_values(a@).subrange(0, j + 1);
        assert(next.drop_last() =~= pre);
        match parse_arg(&a[j]) {
            Ok(x) => {
                let ghost before = out@;
                out.push(x);
                assert(out@.map_values(|k: KernelArgInfo| k.view()) =~= before.map_values(|k: KernelArgInfo| k.view()).push(x.view()));
            },
            Err(e) => {
                proof { lemma_args_prefix_fail(view_values(a@), j as int); }
                return Err(e);
            },
        }
        j = j + 1;
    }
    assert(view_values(a@).subrange(0, a@.len() as int) =~= view_values(a@));
    Ok(out)
}

proof fn lemma_args_prefix_fail(a: Seq<ValueView>, j: int)
    requires
        0 <= j < a.len(),
        arg_spec(a[j]) is None,
    ensures
        args_spec(a) is None,
    decreases a.len(),
{
    if j < a.len() - 1 {
        assert(a.drop_last()[j] == a[j]);
        lemma_args_prefix_fail(a.drop_last(), j);
    }
}

fn parse_kernel(km: &Vec<(String, Value)>) -> (r: Result<KernelInfo, CodeObjectError>)
    ensures
        match kernel_spec(ValueView::Dict(view_entries(km@))) {
            Some(k) => r matches Ok(x) && x.view() == k,
            None => r matches Err(e) && e is Metadata,
        },
{
    let name = required_string(km, ".name")?;
    let symbol = optional_string(km, ".symbol");
    let ks = unwrap_u32_or(optional_u32(km, ".kernarg_segment_size")?, 0);
    let ka = unwrap_u32_or(optional_u32(km, ".kernarg_segment_align")?, 1);
    let gs = unwrap_u32_or(optional_u32(km, ".group_segment_fixed_size")?, 0);
    let ps = unwrap_u32_or(optional_u32(km, ".private_segment_fixed_size")?, 0);
    let args = match get(km, ".args") {
        Some(Value::Array(a)) => parse_args(a)?,
        Some(_) => {
            return Err(CodeObjectError::Metadata { detail: owned("kernel args not an array") });
        },
        None => Vec::new(),
    };
    let k = KernelInfo {
        name,
        symbol,
        kernarg_segment_size: ks,
        kernarg_segment_align: ka,
        group_segment_fixed_size: gs,
        private_segment_fixed_size: ps,
        args,
    };
    assert(k.view().args =~= k.args@.map_values(|a: KernelArgInfo| a.view()));
    proof {
        let km_v = view_entries(km@);
        let args_v = match dict_get(km_v, ".args"@) {
            None => Some(Seq::<KernelArgView>::empty()),
            Some(ValueView::Array(a)) => args_spec(a),
            Some(_) => None,
        };
        assert(args_v == Some(k.view().args));
    }
    Ok(k)
}

fn parse_kernels(m: &Vec<(String, Value)>) -> (r: Result<Vec<KernelInfo>, CodeObjectError>)
    ensures
        match kernels_spec(view_entries(m@)) {
            Some(s) => r matches Ok(x) && x@.map_values(|k: KernelInfo| k.view()) == s,
            None => r matches Err(e) && e is Metadata,
        },
{
    let arr = match get(m, "amdhsa.kernels") {
        Some(Value::Array(a)) => a,
        _ => {
            return Err(CodeObjectError::Metadata { detail: owned("missing amdhsa.kernels") });
        },
    };
    proof { lemma_view_values_index(arr@); }
    let mut out: Vec<KernelInfo> = Vec::new();
    let mut j: usize = 0;
    while j < arr.len()
        invariant
            j <= arr@.len(),
            view_values(arr@).len() == arr@.len(),
            forall|i: int| 0 <= i < arr@.len() ==> #[trigger] view_values(arr@)[i] == arr@[i].view(),
            kernels_list_spec(view_values(arr@).subrange(0, j as int)) == Some(out@.map_values(|k: KernelInfo| k.view())),
            kernels_spec(view_entries(m@)) == kernels_list_spec(view_values(arr@)),
        decreases arr@.len() - j,
    {
        let ghost pre = view_values(arr@).subrange(0, j as int);
        let ghost next = view_values(arr@).subrange(0, j + 1);
        assert(next.drop_last() =~= pre);
        let ghost item = view_values(arr@)[j as int];
        assert(item == arr@[j as int].view());
        match &arr[j] {
            Value::Dict(km) => {
                assert(item == ValueView::Dict(view_entries(km@)));
                match parse_kernel(km) {
                    Ok(x) => {
                        let ghost before = out@;
                        out.push(x);
                        assert(out@.map_values(|k: KernelInfo| k.view()) =~= before.map_values(|k: KernelInfo| k.view()).push(x.view()));
                    },
                    Err(e) => {
                        proof { lemma_kernels_prefix_fail(view_values(arr@), j as int); }
                        return Err(e);
                    },
                }
            },
            _ => {
                assert(item !is Dict);
                proof { lemma_kernels_prefix_fail(view_values(arr@), j as int); }
                return Err(CodeObjectError::Metadata { detail: owned("kernel not a map") });
            },
        }
        j = j + 1;
    }
    assert(view_values(arr@).subrange(0, arr@.len() as int) =~= view_values(arr@));
    Ok(out)
}

proof fn lemma_kernels_prefix_fail(a: Seq<ValueView>, j: int)
    requires
        0 <= j < a.len(),
        kernel_spec(a[j]) is None,
    ensures
        kernels_list_spec(a) is None,
    decreases a.len(),
{
    if j < a.len() - 1 {
        assert(a.drop_last()[j] == a[j]);
        lemma_kernels_prefix_fail(a.drop_last(), j);
    }
}

fn parse_version(m: &Vec<(String, Value)>) -> (r: Result<MetadataVersion, CodeObjectError>)
    ensures
        match version_spec(view_entries(m@)) {
            Some(v) => r matches Ok(x) && x.major == v.0 && x.minor == v.1,
            None => r matches Err(e) && e is Metadata,
        },
{
    let arr = match get(m, "amdhsa.version") {
        Some(Value::Array(a)) => a,
        _ => {
            return Err(CodeObjectError::Metadata { detail: owned("missing amdhsa.version array") });
        },
    };
    proof { lemma_view_values_index(arr@); }
    if arr.len() != 2 {
        return Err(CodeObjectError::Metadata { detail: owned("amdhsa.version must be [major, minor]") });
    }
    let major = as_u32(&arr[0], "amdhsa.version[0]")?;
    let minor = as_u32(&arr[1], "amdhsa.version[1]")?;
    Ok(MetadataVersion { major, minor })
}

/// `str::contains` with a string pattern: whether `p` occurs in `t`.
#[verifier::external_body]
fn contains_str(t: &str, p: &str) -> (r: bool)
    ensures
        r == contains_chars(t@, p@),
{
    t.contains(p)
}

/// Inspect code-object bytes: ELF header, metadata note, MessagePack root map,
/// version and target gates, then every kernel record.
pub fn inspect_bytes(bytes: &[u8]) -> (r: Result<CodeObjectInfo, CodeObjectError>)
    ensures
        header_fault(bytes@) matches Some(k) ==> r matches Err(e) && e.spec_kind() == k,
        r matches Ok(info) ==> inspect_ok(bytes@, info),
        inspected(bytes@) matches Some(InfoSpec::Info { major, minor, target, kernels }) ==> (r matches Ok(info)
            && info.metadata_version.major == major && info.metadata_version.minor == minor && info.target@ == target
            && info.kernels@.map_values(|k: KernelInfo| k.view()) == kernels),
        inspected(bytes@) matches Some(InfoSpec::Fail(k)) ==> (r matches Err(e) && e.spec_kind() == k),
{
    let elf = Elf64File::parse(bytes)?;
    let note = find_amdgpu_metadata_note(&elf)?;
    let root = msgpack::parse(note.desc)?;
    let map = match &root {
        Value::Dict(m) => m,
        _ => {
            return Err(CodeObjectError::Metadata { detail: owned("root is not a map") });
        },
    };
    let version = parse_version(map)?;
    if !(version.major == 1 && (version.minor == 0 || version.minor == 1 || version.minor == 2)) {
        return Err(CodeObjectError::UnsupportedMetadataVersion { major: version.major, minor: version.minor });
    }
    let target = required_string(map, "amdhsa.target")?;
    if !contains_str(target.as_str(), SUPPORTED_GFX_SUBSTRING) {
        return Err(CodeObjectError::UnsupportedTarget { target });
    }
    let kernels = parse_kernels(map)?;
    let info = CodeObjectInfo {
        metadata_version: version,
        target,
        kernels,
        note_desc_len: note.desc.len(),
        fidelity: "abi",
        note: "metadata_only_no_isa_execution",
    };
    proof {
        assert(info_from_root(root.view()) == InfoSpec::Info {
            major: version.major,
            minor: version.minor,
            target: info.target@,
            kernels: info.kernels@.map_values(|k: KernelInfo| k.view()),
        });
    }
    Ok(info)
}

/// What inspecting code-object bytes `d` yields when its header and section
/// table are sound and its metadata note is found: the interpretation of the
/// decoded note (`Fail` when the note does not decode).
pub open spec fn inspected(d: Seq<u8>) -> Option<InfoSpec> {
    let shoff = le64(d, 40);
    let shnum = crate::bytes::le16(d, 60);
    let notes = note_sections_spec(d, shoff, shnum);
    if header_fault(d) is Some || shoff + shnum * 64 > d.len() {
        None
    } else {
        match find_note_from(d, notes, 0, 0) {
            NoteScan::Found(k, s, l) => match parse_spec(section_bytes_spec(d, notes[k].1).unwrap().subrange(s, s + l)) {
                Ok(root) => Some(info_from_root(root)),
                Err(e) => Some(InfoSpec::Fail(e)),
            },
            _ => None,
        }
    }
}

/// What a successful `inspect_bytes` returns: the metadata note found in the
/// ELF, decoded, and interpreted.
pub open spec fn inspect_ok(d: Seq<u8>, info: CodeObjectInfo) -> bool {
    exists|desc: Seq<u8>|
        #![trigger parse_spec(desc)]
        {
            &&& desc.len() == info.note_desc_len
            &&& metadata_note_of(d, desc)
            &&& parse_spec(desc) matches Ok(root)
            &&& info_from_root(root) == InfoSpec::Info {
                major: info.metadata_version.major,
                minor: info.metadata_version.minor,
                target: info.target@,
                kernels: info.kernels@.map_values(|k: KernelInfo| k.view()),
            }
        }
}

/// `desc` is the descriptor of the first AMDGPU metadata note of the ELF `d`.
pub open spec fn metadata_note_of(d: Seq<u8>, desc: Seq<u8>) -> bool {
    let shoff = le64(d, 40);
    let shnum = crate::bytes::le16(d, 60);
    let notes = note_sections_spec(d, shoff, shnum);
    &&& header_fault(d) is None
    &&& shoff + shnum * 64 <= d.len() ==> match find_note_from(d, notes, 0, 0) {
        NoteScan::Found(k, s, l) => desc == section_bytes_spec(d, notes[k].1).unwrap().subrange(s, s + l),
        _ => false,
    }
}

} // verus!
