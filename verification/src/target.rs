//! What a compilation is told about the GPU it is for: the ISA version, the constants the device
//! libraries branch on, the target machine and the options of the code generator.
use crate::text;
use crate::text::{decimal, has_substring, lower, lower_char, matches_at, replaced, u32_of_text};
use vstd::prelude::*;

verus! {

/// A constant that is linked into every module for the device libraries to read.
pub struct OclcConstant {
    pub name: &'static str,
    pub value: u32,
}

/// The address space that constants live in.
pub const CONSTANT_ADDRESS_SPACE: u32 = 4;

/// The passes that a linked module is optimised with.
pub const OPTIMIZER_PASSES: &'static str = "default<O3>";

/// How hard the code generator works.
#[derive(Clone, Copy, PartialEq, Eq, Structural, Debug)]
pub enum CodeGenOptLevel {
    Unoptimized,
    Less,
    Standard,
    Aggressive,
}

/// How code refers to addresses that are fixed up later.
#[derive(Clone, Copy, PartialEq, Eq, Structural, Debug)]
pub enum RelocMode {
    TargetDefault,
    Static,
    Pic,
}

/// How large code and data may grow.
#[derive(Clone, Copy, PartialEq, Eq, Structural, Debug)]
pub enum CodeModel {
    TargetDefault,
    Small,
    Large,
}

/// Everything a target machine is made from.
pub struct TargetMachineConfig {
    pub triple: &'static str,
    pub cpu: String,
    pub features: &'static str,
    pub opt_level: CodeGenOptLevel,
    pub reloc_mode: RelocMode,
    pub code_model: CodeModel,
}

/// The ISA version shared by a whole family, for the targets that name one.
pub open spec fn family_isa_version(arch: Seq<char>) -> Option<nat> {
    if arch == "gfx10-3-generic"@ {
        Some(10300)
    } else if arch == "gfx11-generic"@ {
        Some(11000)
    } else if arch == "gfx12-generic"@ {
        Some(12000)
    } else {
        None
    }
}

/// The ISA version of a part number: its last digit is the stepping, the one before it the minor
/// version, and the rest the major version.
pub open spec fn part_isa_version(base: nat) -> nat {
    (base / 100) * 1000 + ((base / 10) % 10) * 100 + base % 10
}

/// The ISA version of an architecture name, if it has one.
pub open spec fn isa_version(arch: Seq<char>) -> Option<nat> {
    match family_isa_version(arch) {
        Some(version) => Some(version),
        None => match u32_of_text(replaced(arch, "gfx"@, ""@)) {
            Some(base) => Some(part_isa_version(base as nat)),
            None => None,
        },
    }
}

/// Whether the ISA version of `arch`, if there is one, fits the 32 bits it is stored in.
pub open spec fn isa_version_fits(arch: Seq<char>) -> bool {
    isa_version(arch) matches Some(version) ==> version <= u32::MAX
}

/// The version of the code object format that is generated. The generic family targets are
/// refused below version 6.
pub open spec fn code_object_version(generic: bool) -> nat {
    if generic {
        6
    } else {
        5
    }
}

/// The constants of a compilation, by name and value.
pub open spec fn oclc_table(generic: bool, isa: nat) -> Seq<(Seq<char>, nat)> {
    seq![
        ("__oclc_wavefrontsize64"@, 0nat),
        ("__oclc_wavefrontsize_log2"@, 5),
        ("__oclc_ABI_version"@, 100 * code_object_version(generic)),
        ("__oclc_ISA_version"@, isa),
        ("__oclc_unsafe_math_opt"@, 0),
        ("__oclc_correctly_rounded_sqrt32"@, 1),
        ("__oclc_finite_only_opt"@, 0),
    ]
}

/// A list of constants by name and value.
pub open spec fn constant_table(constants: Seq<OclcConstant>) -> Seq<(Seq<char>, nat)> {
    constants.map_values(|c: OclcConstant| (c.name@, c.value as nat))
}

/// The options of the code generator, in order. The first stands for the program's name.
pub open spec fn llvm_option_texts(generic: bool) -> Seq<Seq<char>> {
    seq![
        "llvm_zluda"@,
        "-ignore-tti-inline-compatible"@,
        "-amdgpu-internalize-symbols"@,
        if generic {
            "-amdhsa-code-object-version=6"@
        } else {
            "-amdhsa-code-object-version=5"@
        },
    ]
}

/// The characters of each option.
pub open spec fn texts_of(options: Seq<&'static str>) -> Seq<Seq<char>> {
    options.map_values(|o: &'static str| o@)
}

/// Whether this process is building for a generic family target, by the value of the variable
/// that chooses the target.
pub fn targeting_generic_family(target_arch: Option<&str>) -> (generic: bool)
    ensures
        generic == (target_arch matches Some(arch) && has_substring(arch@, "generic"@)),
{
    match target_arch {
        Some(arch) => text::contains(arch, "generic"),
        None => false,
    }
}

/// Whether the ISA version of `gcn_arch`, if there is one, fits 32 bits.
pub fn gcn_arch_in_range(gcn_arch: &str) -> (fits: bool)
    ensures
        fits == isa_version_fits(gcn_arch@),
{
    if text::same(gcn_arch, "gfx10-3-generic") || text::same(gcn_arch, "gfx11-generic")
        || text::same(gcn_arch, "gfx12-generic") {
        return true;
    }
    match text::parse_u32(text::replace(gcn_arch, "gfx", "").as_str()) {
        Some(base) => (base as u64 / 100) * 1000 + ((base as u64 / 10) % 10) * 100 + base as u64 % 10
            <= u32::MAX as u64,
        None => true,
    }
}

/// The ISA version of a GPU, from the name of its architecture.
///
/// A generic target names a whole family rather than one part. The device libraries branch on the
/// ISA version, so a family gets the version of its first member: that is the same choice every
/// member of the family would have made.
pub fn get_isa_version_from_gcn_arch(gcn_arch: &str) -> (r: Result<u32, String>)
    requires
        isa_version_fits(gcn_arch@),
    ensures
        match isa_version(gcn_arch@) {
            Some(version) => r is Ok && r->Ok_0 == version,
            None => r is Err && r->Err_0@ == "could not get ISA version from gcn_arch"@,
        },
{
    if text::same(gcn_arch, "gfx10-3-generic") {
        return Ok(10300);
    }
    if text::same(gcn_arch, "gfx11-generic") {
        return Ok(11000);
    }
    if text::same(gcn_arch, "gfx12-generic") {
        return Ok(12000);
    }
    match text::parse_u32(text::replace(gcn_arch, "gfx", "").as_str()) {
        Some(base) => {
            let stepping: u32 = base % 10;
            let minor: u32 = (base / 10) % 10;
            let major: u32 = base / 100;
            Ok(major * 1000 + minor * 100 + stepping)
        },
        None => Err("could not get ISA version from gcn_arch".to_owned()),
    }
}

/// The constants that the device libraries read, for a compilation for `gcn_arch`.
pub fn create_oclc_constants(gcn_arch: &str, generic: bool) -> (r: Result<
    Vec<OclcConstant>,
    String,
>)
    requires
        isa_version_fits(gcn_arch@),
    ensures
        match isa_version(gcn_arch@) {
            Some(version) => r is Ok && constant_table(r->Ok_0@) == oclc_table(generic, version),
            None => r is Err && r->Err_0@ == "could not get ISA version from gcn_arch"@,
        },
{
    let abi: u32 = if generic {
        600
    } else {
        500
    };
    match get_isa_version_from_gcn_arch(gcn_arch) {
        Err(message) => Err(message),
        Ok(isa) => {
            let mut constants: Vec<OclcConstant> = Vec::new();
            // used by ockl
            constants.push(OclcConstant { name: "__oclc_wavefrontsize64", value: 0 });
            constants.push(OclcConstant { name: "__oclc_wavefrontsize_log2", value: 5 });
            constants.push(OclcConstant { name: "__oclc_ABI_version", value: abi });
            constants.push(OclcConstant { name: "__oclc_ISA_version", value: isa });
            // used by ocml
            constants.push(OclcConstant { name: "__oclc_unsafe_math_opt", value: 0 });
            constants.push(OclcConstant { name: "__oclc_correctly_rounded_sqrt32", value: 1 });
            constants.push(OclcConstant { name: "__oclc_finite_only_opt", value: 0 });
            assert(constant_table(constants@) =~= oclc_table(generic, isa as nat));
            Ok(constants)
        },
    }
}

/// The options of the code generator. They are parsed once for the process, before any module
/// names its target, so the choice of format is made from the variable that picks the target.
pub fn llvm_options(generic: bool) -> (options: Vec<&'static str>)
    ensures
        texts_of(options@) == llvm_option_texts(generic),
{
    let mut options: Vec<&'static str> = Vec::new();
    options.push("llvm_zluda");
    options.push("-ignore-tti-inline-compatible");
    options.push("-amdgpu-internalize-symbols");
    if generic {
        options.push("-amdhsa-code-object-version=6");
    } else {
        options.push("-amdhsa-code-object-version=5");
    }
    assert(texts_of(options@) =~= llvm_option_texts(generic));
    options
}

/// What a value of `ZLUDA_CUMODE` asks for: CU mode, WGP mode, or nothing that is known.
pub open spec fn mode_of(value: Seq<char>) -> Option<bool> {
    if lower(value) == "1"@ || lower(value) == "true"@ || lower(value) == "cu"@ {
        Some(true)
    } else if lower(value) == "0"@ || lower(value) == "false"@ || lower(value) == "wgp"@ {
        Some(false)
    } else {
        None
    }
}

/// The complaint about a value that asks for no mode.
pub open spec fn mode_complaint(value: Seq<char>) -> Seq<char> {
    "ZLUDA_CUMODE is neither a CU mode (1, true, cu) nor a WGP mode (0, false, wgp): "@ + value
}

/// The mode that is asked for by the value of `ZLUDA_CUMODE`. The case of its letters does not
/// matter. A value that asks for no mode is complained about to `report`, and leaves the choice to
/// the architecture as an absent one does.
pub fn chosen_mode<N: FnOnce(String)>(setting: Option<&str>, report: N) -> (mode: Option<bool>)
    requires
        forall|complaint: String|
            (setting matches Some(value) && mode_of(value@) is None && complaint@ == mode_complaint(
                value@,
            )) ==> #[trigger] report.requires((complaint,)),
    ensures
        mode == match setting {
            Some(value) => mode_of(value@),
            None => None,
        },
        setting matches Some(value) ==> mode_of(value@) is None ==> exists|complaint: String|
            complaint@ == mode_complaint(value@) && #[trigger] report.ensures((complaint,), ()),
{
    let value = match setting {
        Some(value) => value,
        None => {
            return None;
        },
    };
    if text::same_in_lower_case(value, "1") || text::same_in_lower_case(value, "true")
        || text::same_in_lower_case(value, "cu") {
        return Some(true);
    }
    if text::same_in_lower_case(value, "0") || text::same_in_lower_case(value, "false")
        || text::same_in_lower_case(value, "wgp") {
        return Some(false);
    }
    let mut complaint =
        "ZLUDA_CUMODE is neither a CU mode (1, true, cu) nor a WGP mode (0, false, wgp): ".to_owned();
    complaint.append(value);
    report(complaint);
    assert(report.ensures((complaint,), ()));
    None
}

/// Whether an architecture has WGP mode: the ones from gfx10 to gfx12.
pub open spec fn has_wgp_mode(arch: Seq<char>) -> bool {
    matches_at(arch, "gfx10"@, 0) || matches_at(arch, "gfx11"@, 0) || matches_at(arch, "gfx12"@, 0)
}

/// Whether code for an architecture runs in CU mode: as chosen, and otherwise where there is no WGP
/// mode.
pub open spec fn runs_in_cumode(arch: Seq<char>, chosen: Option<bool>) -> bool {
    match chosen {
        Some(cumode) => cumode,
        None => !has_wgp_mode(arch),
    }
}

/// Whether code for `gcn_arch` runs in CU mode, by the mode that was chosen, if one was.
pub fn is_cumode(gcn_arch: &str, chosen: Option<bool>) -> (cumode: bool)
    ensures
        cumode == runs_in_cumode(gcn_arch@, chosen),
{
    match chosen {
        Some(cumode) => cumode,
        None => !(text::starts_with(gcn_arch, "gfx10") || text::starts_with(gcn_arch, "gfx11")
            || text::starts_with(gcn_arch, "gfx12")),
    }
}

/// The features that a target machine is made with.
pub open spec fn target_features(cumode: bool) -> Seq<char> {
    if cumode {
        "-wavefrontsize64,+cumode"@
    } else {
        "-wavefrontsize64,-cumode"@
    }
}

/// The target machine for `gcn_arch` in CU or in WGP mode. A name that holds a NUL character cannot
/// be handed to the code generator.
pub fn make_target_machine(gcn_arch: &str, cumode: bool) -> (r: Result<TargetMachineConfig, String>)
    ensures
        match r {
            Ok(config) => {
                &&& !gcn_arch@.contains('\0')
                &&& config.triple@ == "amdgcn-amd-amdhsa"@
                &&& config.cpu@ == gcn_arch@
                &&& config.features@ == target_features(cumode)
                &&& config.opt_level == CodeGenOptLevel::Aggressive
                &&& config.reloc_mode == RelocMode::TargetDefault
                &&& config.code_model == CodeModel::TargetDefault
            },
            Err(message) => gcn_arch@.contains('\0') && message@ == "invalid gcn_arch"@,
        },
{
    if has_nul(gcn_arch) {
        return Err("invalid gcn_arch".to_owned());
    }
    Ok(
        TargetMachineConfig {
            triple: "amdgcn-amd-amdhsa",
            cpu: gcn_arch.to_owned(),
            features: if cumode {
                "-wavefrontsize64,+cumode"
            } else {
                "-wavefrontsize64,-cumode"
            },
            opt_level: CodeGenOptLevel::Aggressive,
            reloc_mode: RelocMode::TargetDefault,
            code_model: CodeModel::TargetDefault,
        },
    )
}

/// Whether `options` are the options of the code generator.
pub open spec fn are_llvm_options(generic: bool, options: Vec<&'static str>) -> bool {
    texts_of(options@) == llvm_option_texts(generic)
}

/// Whether handing the code generator its options may end so.
pub open spec fn parsing_gave<P: FnOnce(Vec<&'static str>) -> Result<(), String>>(
    parse_options: P,
    generic: bool,
    r: Result<(), String>,
) -> bool {
    exists|options: Vec<&'static str>| #[trigger]
        are_llvm_options(generic, options) && parse_options.ensures((options,), r)
}

/// Sets the code generator up: hands it its options, and makes the target known to it unless it
/// refuses them.
pub fn init_globals<P: FnOnce(Vec<&'static str>) -> Result<(), String>, I: FnOnce()>(
    generic: bool,
    parse_options: P,
    initialize_target: I,
) -> (r: Result<(), String>)
    requires
        forall|options: Vec<&'static str>|
            are_llvm_options(generic, options) ==> #[trigger] parse_options.requires((options,)),
        forall|parsed: Result<(), String>| #[trigger]
            parsing_gave(parse_options, generic, parsed) && parsed is Ok
                ==> initialize_target.requires(()),
    ensures
        parsing_gave(parse_options, generic, r),
        r is Ok ==> initialize_target.ensures((), ()),
{
    let options = llvm_options(generic);
    assert(are_llvm_options(generic, options));
    let r = parse_options(options);
    assert(parse_options.ensures((options,), r));
    assert(parsing_gave(parse_options, generic, r));
    if r.is_ok() {
        initialize_target();
    }
    r
}

/// Whether the code generator was set up in this process, and how that ended.
pub struct Initialization {
    pub done: Option<Result<(), String>>,
}

/// Whether two ends of setting up are the same.
pub open spec fn same_end(a: Result<(), String>, b: Result<(), String>) -> bool {
    match (a, b) {
        (Ok(_), Ok(_)) => true,
        (Err(x), Err(y)) => x@ == y@,
        _ => false,
    }
}

impl Initialization {
    /// Nothing has been set up.
    pub fn new() -> (state: Self)
        ensures
            state.done is None,
    {
        Initialization { done: None }
    }

    /// Sets the code generator up if that was not done yet, and says how it ended. The options are
    /// handed over once for the process, before any module names its target, so which of them are
    /// depends on the same variable that picks the target.
    pub fn ensure<P: FnOnce(Vec<&'static str>) -> Result<(), String>, I: FnOnce()>(
        &mut self,
        generic: bool,
        parse_options: P,
        initialize_target: I,
    ) -> (r: Result<(), String>)
        requires
            forall|options: Vec<&'static str>|
                old(self).done is None && are_llvm_options(generic, options) ==> #[trigger]
                parse_options.requires((options,)),
            forall|parsed: Result<(), String>| #[trigger]
                parsing_gave(parse_options, generic, parsed) && parsed is Ok
                    ==> initialize_target.requires(()),
        ensures
            final(self).done matches Some(end) && same_end(end, r),
            match old(self).done {
                Some(_) => final(self).done == old(self).done,
                None => {
                    &&& exists|parsed: Result<(), String>| #[trigger]
                        parsing_gave(parse_options, generic, parsed) && same_end(parsed, r)
                    &&& r is Ok ==> initialize_target.ensures((), ())
                },
            },
    {
        if self.done.is_none() {
            let end = init_globals(generic, parse_options, initialize_target);
            assert(parsing_gave(parse_options, generic, end));
            self.done = Some(end);
        }
        match &self.done {
            Some(Ok(_)) => Ok(()),
            Some(Err(message)) => Err(message.clone()),
            None => Ok(()),
        }
    }
}

/// Once the code generator was set up, every later attempt ends as the first did.
pub proof fn later_attempts_end_as_the_first(
    first: Initialization,
    second: Initialization,
    a: Result<(), String>,
    b: Result<(), String>,
)
    requires
        first.done matches Some(end) && same_end(end, a),
        second.done == first.done,
        second.done matches Some(end) && same_end(end, b),
    ensures
        same_end(a, b),
{
}

/// The text of a path that is handed to the linker as a NUL-terminated string. `path` is absent
/// when the path is not valid Unicode.
pub fn path_to_cstring(path: Option<&str>) -> (r: Result<String, String>)
    ensures
        match path {
            None => r is Err && r->Err_0@ == "path is not valid as str"@,
            Some(text) => if text@.contains('\0') {
                r is Err && r->Err_0@ == "path includes invalid null byte"@
            } else {
                r is Ok && r->Ok_0@ == text@
            },
        },
{
    match path {
        None => Err("path is not valid as str".to_owned()),
        Some(text) => if has_nul(text) {
            Err("path includes invalid null byte".to_owned())
        } else {
            Ok(text.to_owned())
        },
    }
}

/// Whether a string holds a NUL character.
pub(crate) fn has_nul(s: &str) -> (r: bool)
    ensures
        r == s@.contains('\0'),
{
    let chars = text::chars_of(s);
    let mut i: usize = 0;
    while i < chars.len()
        invariant
            i <= chars@.len(),
            chars@ == s@,
            forall|k: int| 0 <= k < i ==> s@[k] != '\0',
        decreases chars@.len() - i,
    {
        if chars[i] == '\0' {
            assert(s@[i as int] == '\0');
            return true;
        }
        i += 1;
    }
    false
}

/// The ABI version that the device libraries are told agrees with the code object version that
/// the code generator is told: the one is a hundred times the other.
pub proof fn abi_version_agrees_with_code_object(generic: bool, isa: nat)
    ensures
        llvm_option_texts(generic)[3] == "-amdhsa-code-object-version="@ + decimal(
            code_object_version(generic),
        ),
        oclc_table(generic, isa)[2] == ("__oclc_ABI_version"@, 100 * code_object_version(generic)),
{
    reveal_strlit("-amdhsa-code-object-version=");
    reveal_strlit("-amdhsa-code-object-version=6");
    reveal_strlit("-amdhsa-code-object-version=5");
    assert(llvm_option_texts(generic)[3] =~= "-amdhsa-code-object-version="@ + decimal(
        code_object_version(generic),
    ));
}

/// The digits of a number are what is left of a part name.
proof fn lemma_part_name(base: nat)
    ensures
        replaced("gfx"@ + decimal(base), "gfx"@, ""@) == decimal(base),
        family_isa_version("gfx"@ + decimal(base)) is None,
{
    let digits = decimal(base);
    let name = "gfx"@ + digits;
    text::lemma_decimal_value(base);
    reveal_strlit("gfx");
    reveal_strlit("");
    assert(name.subrange(0, 3) =~= "gfx"@);
    assert(name.skip(3) =~= digits);
    if has_substring(digits, "gfx"@) {
        let at = choose|at: int| #[trigger] matches_at(digits, "gfx"@, at);
        assert(digits.subrange(at, at + 3)[0] == "gfx"@[0]);
        assert(text::is_digit(digits[at]));
    }
    text::nothing_to_replace(digits, "gfx"@, ""@);
    assert(""@ + digits =~= digits);
    reveal_strlit("gfx10-3-generic");
    reveal_strlit("gfx11-generic");
    reveal_strlit("gfx12-generic");
    if name == "gfx10-3-generic"@ {
        assert(digits[2] == name[5] && text::is_digit(digits[2]));
    }
    if name == "gfx11-generic"@ {
        assert(digits[2] == name[5] && text::is_digit(digits[2]));
    }
    if name == "gfx12-generic"@ {
        assert(digits[2] == name[5] && text::is_digit(digits[2]));
    }
}

/// The version of a part is read off its name: `gfx`, then the digits of the major version, one digit
/// for the minor version and one for the stepping. The major version counts a thousand, the minor
/// version a hundred.
pub proof fn version_of_a_part(
    gcn_arch: &str,
    major: nat,
    minor: nat,
    stepping: nat,
    r: Result<u32, String>,
)
    requires
        call_ensures(get_isa_version_from_gcn_arch, (gcn_arch,), r),
        gcn_arch@ == "gfx"@ + decimal(major * 100 + minor * 10 + stepping),
        minor < 10,
        stepping < 10,
        major * 1000 + minor * 100 + stepping <= u32::MAX,
    ensures
        r is Ok,
        r->Ok_0 == major * 1000 + minor * 100 + stepping,
{
    let base = major * 100 + minor * 10 + stepping;
    lemma_part_name(base);
    text::lemma_decimal_value(base);
    assert(base / 100 == major && (base / 10) % 10 == minor && base % 10 == stepping);
}

/// A family has the version of its first member.
pub proof fn family_has_the_version_of_its_first_member(
    gcn_arch: &str,
    first: &str,
    r: Result<u32, String>,
    version: Result<u32, String>,
)
    requires
        call_ensures(get_isa_version_from_gcn_arch, (gcn_arch,), r),
        call_ensures(get_isa_version_from_gcn_arch, (first,), version),
        gcn_arch@ == "gfx10-3-generic"@ && first@ == "gfx"@ + decimal(1030) || gcn_arch@
            == "gfx11-generic"@ && first@ == "gfx"@ + decimal(1100) || gcn_arch@ == "gfx12-generic"@
            && first@ == "gfx"@ + decimal(1200),
    ensures
        r is Ok,
        version is Ok,
        r->Ok_0 == version->Ok_0,
{
    reveal_strlit("gfx10-3-generic");
    reveal_strlit("gfx11-generic");
    reveal_strlit("gfx12-generic");
    assert("gfx10-3-generic"@[4] == '0' && "gfx11-generic"@[4] == '1' && "gfx12-generic"@[4]
        == '2');
    if gcn_arch@ == "gfx10-3-generic"@ {
        version_of_a_part(first, 10, 3, 0, version);
    } else if gcn_arch@ == "gfx11-generic"@ {
        version_of_a_part(first, 11, 0, 0, version);
    } else {
        version_of_a_part(first, 12, 0, 0, version);
    }
}

/// A name is in range if and only if its version fits: a part is out of range exactly from the
/// versions on that 32 bits do not hold.
pub proof fn range_of_a_part(gcn_arch: &str, base: u32, fits: bool)
    requires
        call_ensures(gcn_arch_in_range, (gcn_arch,), fits),
        gcn_arch@ == "gfx"@ + decimal(base as nat),
    ensures
        fits <==> (base / 100) * 1000 + ((base / 10) % 10) * 100 + base % 10 <= u32::MAX,
{
    lemma_part_name(base as nat);
    text::lemma_decimal_value(base as nat);
}

/// The device libraries are told these seven things, in this order, and of the device no more than its
/// version; where the name has no version they are told nothing.
pub proof fn constants_are_these(
    gcn_arch: &str,
    generic: bool,
    version: Result<u32, String>,
    r: Result<Vec<OclcConstant>, String>,
)
    requires
        call_ensures(create_oclc_constants, (gcn_arch, generic), r),
        call_ensures(get_isa_version_from_gcn_arch, (gcn_arch,), version),
    ensures
        version is Err ==> r is Err && r->Err_0@ == version->Err_0@,
        version is Ok ==> r is Ok && {
            let c = r->Ok_0@;
            &&& c.len() == 7
            &&& c[0].name@ == "__oclc_wavefrontsize64"@ && c[0].value == 0
            &&& c[1].name@ == "__oclc_wavefrontsize_log2"@ && c[1].value == 5
            &&& c[2].name@ == "__oclc_ABI_version"@ && (generic ==> c[2].value == 600) && (!generic
                ==> c[2].value == 500)
            &&& c[3].name@ == "__oclc_ISA_version"@ && c[3].value == version->Ok_0
            &&& c[4].name@ == "__oclc_unsafe_math_opt"@ && c[4].value == 0
            &&& c[5].name@ == "__oclc_correctly_rounded_sqrt32"@ && c[5].value == 1
            &&& c[6].name@ == "__oclc_finite_only_opt"@ && c[6].value == 0
        },
{
    if version is Ok {
        let c = r->Ok_0@;
        let table = constant_table(c);
        assert(table.len() == c.len());
        assert forall|i: int| 0 <= i < 7 implies (#[trigger] table[i]) == (
            c[i].name@,
            c[i].value as nat,
        ) by {}
        assert(table[0].0 == c[0].name@ && table[1].0 == c[1].name@ && table[2].0 == c[2].name@
            && table[3].0 == c[3].name@ && table[4].0 == c[4].name@ && table[5].0 == c[5].name@
            && table[6].0 == c[6].name@);
    }
}

/// The code generator is given these four options, in this order.
pub proof fn options_are_these(generic: bool, options: Vec<&'static str>)
    requires
        call_ensures(llvm_options, (generic,), options),
    ensures
        options@.len() == 4,
        options@[0]@ == "llvm_zluda"@,
        options@[1]@ == "-ignore-tti-inline-compatible"@,
        options@[2]@ == "-amdgpu-internalize-symbols"@,
        generic ==> options@[3]@ == "-amdhsa-code-object-version=6"@,
        !generic ==> options@[3]@ == "-amdhsa-code-object-version=5"@,
{
    let texts = texts_of(options@);
    assert(texts.len() == options@.len());
    assert(texts[0] == options@[0]@ && texts[1] == options@[1]@ && texts[2] == options@[2]@
        && texts[3] == options@[3]@);
}

/// Setting the code generator up hands it these four options and nothing else, and makes the target
/// known unless it refused them.
pub proof fn setting_up_hands_over_the_options<
    P: FnOnce(Vec<&'static str>) -> Result<(), String>,
    I: FnOnce(),
>(generic: bool, parse_options: P, initialize_target: I, r: Result<(), String>)
    requires
        call_ensures(init_globals::<P, I>, (generic, parse_options, initialize_target), r),
    ensures
        exists|options: Vec<&'static str>|
            {
                &&& #[trigger] parse_options.ensures((options,), r)
                &&& options@.len() == 4
                &&& options@[0]@ == "llvm_zluda"@
                &&& options@[1]@ == "-ignore-tti-inline-compatible"@
                &&& options@[2]@ == "-amdgpu-internalize-symbols"@
                &&& generic ==> options@[3]@ == "-amdhsa-code-object-version=6"@
                &&& !generic ==> options@[3]@ == "-amdhsa-code-object-version=5"@
            },
        r is Ok ==> initialize_target.ensures((), ()),
{
    let options = choose|options: Vec<&'static str>| #[trigger]
        are_llvm_options(generic, options) && parse_options.ensures((options,), r);
    let texts = texts_of(options@);
    assert(texts.len() == options@.len());
    assert(texts[0] == options@[0]@ && texts[1] == options@[1]@ && texts[2] == options@[2]@
        && texts[3] == options@[3]@);
    assert(parse_options.ensures((options,), r));
}

/// Setting up is done once: what it came to the first time is kept, and said again ever after.
pub proof fn setting_up_is_done_once<P: FnOnce(Vec<&'static str>) -> Result<(), String>, I: FnOnce()>(
    state: &mut Initialization,
    generic: bool,
    parse_options: P,
    initialize_target: I,
    r: Result<(), String>,
)
    requires
        call_ensures(
            Initialization::ensure::<P, I>,
            (state, generic, parse_options, initialize_target),
            r,
        ),
    ensures
        final(state).done is Some,
        final(state).done->Some_0 is Ok <==> r is Ok,
        r is Err ==> final(state).done->Some_0->Err_0@ == r->Err_0@,
        old(state).done is Some ==> final(state).done == old(state).done,
        old(state).done is None && r is Ok ==> initialize_target.ensures((), ()),
        old(state).done is None ==> exists|options: Vec<&'static str>, parsed: Result<(), String>|
            {
                &&& #[trigger] parse_options.ensures((options,), parsed)
                &&& (parsed is Ok <==> r is Ok)
                &&& r is Err ==> parsed->Err_0@ == r->Err_0@
                &&& options@.len() == 4
                &&& generic ==> options@[3]@ == "-amdhsa-code-object-version=6"@
                &&& !generic ==> options@[3]@ == "-amdhsa-code-object-version=5"@
            },
{
    if old(state).done is None {
        let parsed = choose|parsed: Result<(), String>| #[trigger]
            parsing_gave(parse_options, generic, parsed) && same_end(parsed, r);
        let options = choose|options: Vec<&'static str>| #[trigger]
            are_llvm_options(generic, options) && parse_options.ensures((options,), parsed);
        let texts = texts_of(options@);
        assert(texts.len() == options@.len());
        assert(texts[3] == options@[3]@);
        assert(parse_options.ensures((options,), parsed));
    }
}

/// A target is a generic family if and only if `generic` stands somewhere in its name.
pub proof fn generic_stands_in_the_name(target_arch: Option<&str>, generic: bool)
    requires
        call_ensures(targeting_generic_family, (target_arch,), generic),
    ensures
        generic <==> target_arch is Some && exists|before: Seq<char>, after: Seq<char>|
            target_arch->Some_0@ == #[trigger] (before + "generic"@ + after),
{
    if target_arch is Some {
        let arch = target_arch->Some_0@;
        let pattern = "generic"@;
        if generic {
            let at = choose|at: int| #[trigger] matches_at(arch, pattern, at);
            let before = arch.take(at);
            let after = arch.skip(at + pattern.len());
            assert(arch =~= before + arch.subrange(at, at + pattern.len()) + after);
            assert(arch == before + "generic"@ + after);
        }
        if exists|before: Seq<char>, after: Seq<char>| arch == #[trigger] (before + pattern + after) {
            let (before, after) = choose|before: Seq<char>, after: Seq<char>|
                arch == #[trigger] (before + pattern + after);
            let at = before.len() as int;
            assert(arch.subrange(at, at + pattern.len()) =~= pattern);
            assert(matches_at(arch, pattern, at));
        }
    }
}

/// Code runs in the mode that was chosen; without a choice it runs in CU mode unless the name of the
/// architecture starts with `gfx10`, `gfx11` or `gfx12`.
pub proof fn mode_is_as_chosen(gcn_arch: &str, chosen: Option<bool>, cumode: bool)
    requires
        call_ensures(is_cumode, (gcn_arch, chosen), cumode),
    ensures
        chosen is Some ==> cumode == chosen->Some_0,
        chosen is None ==> (cumode <==> !(gcn_arch@.len() >= 5 && (gcn_arch@.take(5) == "gfx10"@
            || gcn_arch@.take(5) == "gfx11"@ || gcn_arch@.take(5) == "gfx12"@))),
{
    reveal_strlit("gfx10");
    reveal_strlit("gfx11");
    reveal_strlit("gfx12");
    if gcn_arch@.len() >= 5 {
        assert(gcn_arch@.subrange(0, 5) =~= gcn_arch@.take(5));
    }
}

/// A value asks for a mode whatever the case of its letters: for CU mode if it is `1`, `true` or `cu`,
/// for WGP mode if it is `0`, `false` or `wgp`. Any other value is complained about, word for word, and
/// leaves the choice open, as an absent one does.
pub proof fn value_asks_for_a_mode<N: FnOnce(String)>(
    setting: Option<&str>,
    report: N,
    mode: Option<bool>,
)
    requires
        call_ensures(chosen_mode::<N>, (setting, report), mode),
    ensures
        setting is None ==> mode is None,
        setting is Some ==> {
            let value = setting->Some_0@;
            let says = |word: Seq<char>|
                value.len() == word.len() && forall|i: int|
                    0 <= i < value.len() ==> lower_char(#[trigger] value[i]) == word[i];
            &&& mode == Some(true) <==> says("1"@) || says("true"@) || says("cu"@)
            &&& mode == Some(false) <==> says("0"@) || says("false"@) || says("wgp"@)
            &&& mode is None ==> exists|complaint: String|
                complaint@
                    == "ZLUDA_CUMODE is neither a CU mode (1, true, cu) nor a WGP mode (0, false, wgp): "@
                    + setting->Some_0@ && #[trigger] report.ensures((complaint,), ())
        },
{
    if setting is Some {
        let value = setting->Some_0@;
        let says = |word: Seq<char>|
            value.len() == word.len() && forall|i: int|
                0 <= i < value.len() ==> lower_char(#[trigger] value[i]) == word[i];
        assert forall|word: Seq<char>| #[trigger] says(word) <==> lower(value) == word by {
            if lower(value) == word {
                assert forall|i: int| 0 <= i < value.len() implies lower_char(#[trigger] value[i])
                    == word[i] by {
                    assert(lower(value)[i] == lower_char(value[i]));
                }
            }
            if says(word) {
                assert forall|i: int| 0 <= i < value.len() implies lower(value)[i] == word[i] by {
                    assert(lower_char(value[i]) == word[i]);
                }
                assert(lower(value) =~= word);
            }
        }
        reveal_strlit("1");
        reveal_strlit("true");
        reveal_strlit("cu");
        reveal_strlit("0");
        reveal_strlit("false");
        reveal_strlit("wgp");
        assert("1"@[0] == '1' && "0"@[0] == '0' && "true"@.len() == 4 && "false"@.len() == 5
            && "wgp"@.len() == 3 && "cu"@.len() == 2 && "1"@.len() == 1 && "0"@.len() == 1);
        assert(says("1"@) == (lower(value) == "1"@));
        assert(says("true"@) == (lower(value) == "true"@));
        assert(says("cu"@) == (lower(value) == "cu"@));
        assert(says("0"@) == (lower(value) == "0"@));
        assert(says("false"@) == (lower(value) == "false"@));
        assert(says("wgp"@) == (lower(value) == "wgp"@));
    }
}

/// The target machine is for the named device, in the given mode and with waves of 32 lanes.
pub proof fn machine_is_made_for_the_device(
    gcn_arch: &str,
    cumode: bool,
    r: Result<TargetMachineConfig, String>,
)
    requires
        call_ensures(make_target_machine, (gcn_arch, cumode), r),
    ensures
        r is Err <==> exists|i: int| 0 <= i < gcn_arch@.len() && #[trigger] gcn_arch@[i] == '\0',
        r is Err ==> r->Err_0@ == "invalid gcn_arch"@,
        r is Ok ==> {
            let config = r->Ok_0;
            &&& config.triple@ == "amdgcn-amd-amdhsa"@
            &&& config.cpu@ == gcn_arch@
            &&& cumode ==> config.features@ == "-wavefrontsize64,+cumode"@
            &&& !cumode ==> config.features@ == "-wavefrontsize64,-cumode"@
            &&& config.opt_level == CodeGenOptLevel::Aggressive
            &&& config.reloc_mode == RelocMode::TargetDefault
            &&& config.code_model == CodeModel::TargetDefault
        },
{
}

/// A path is handed on as it is, unless it is no text or a NUL character stands in it.
pub proof fn path_is_handed_on(path: Option<&str>, r: Result<String, String>)
    requires
        call_ensures(path_to_cstring, (path,), r),
    ensures
        path is None ==> r is Err && r->Err_0@ == "path is not valid as str"@,
        path is Some ==> (r is Err <==> exists|i: int|
            0 <= i < path->Some_0@.len() && (#[trigger] path->Some_0@[i]) == '\0'),
        path is Some && r is Err ==> r->Err_0@ == "path includes invalid null byte"@,
        r is Ok ==> r->Ok_0@ == path->Some_0@,
{
}

} // verus!
