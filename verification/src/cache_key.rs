//! Under which key a translated module is kept: everything that the translation depends on is part
//! of the key.
use crate::cache::ModuleCache;
use crate::clock::is_clock_time;
use crate::json;
use crate::json::{
    is_word, listed, member_text, object_text, scalar_text, tail_text, without, word_names, JsonScalar,
    Member,
};
use crate::text;
use crate::text::{decimal, replaced, u32_of_text};
use vstd::prelude::*;
use vstd::utf8::encode_utf8;

verus! {

/// What a translation depends on besides the text, the device and the compiler.
#[derive(Clone, Copy, Debug)]
pub struct ExtraCacheAttributes {
    pub is_debug: bool,
    pub clock_rate: u32,
    pub cumode: bool,
    /// Drop the `.maxnreg` directive instead of enforcing it. Belongs in the key because the
    /// compiled code differs.
    pub ignore_maxnreg: bool,
    /// Force the per-function register budget. Belongs in the key because the compiled code
    /// differs.
    pub num_vgpr_override: Option<u32>,
    /// How many parts the module is cut into before code generation. Belongs in the key because a
    /// module compiled as one object and the same module compiled as several are not the same
    /// code.
    pub codegen_parts: u32,
}

/// The key of a cache entry, and the time of the access that it is used for.
pub struct ModuleKey<'a> {
    pub hash: String,
    pub compiler_version: &'a str,
    pub zluda_version: &'a str,
    pub device: &'a str,
    pub backend_key: String,
    pub last_access: i64,
}

/// What tells one cache entry from another.
pub struct CacheIdentity {
    pub hash: Seq<char>,
    pub compiler_version: Seq<char>,
    pub zluda_version: Seq<char>,
    pub device: Seq<char>,
    pub backend_key: Seq<char>,
}

impl<'a> ModuleKey<'a> {
    /// The entry that the key names. The time of the access is no part of it.
    pub open spec fn identity(self) -> CacheIdentity {
        CacheIdentity {
            hash: self.hash@,
            compiler_version: self.compiler_version@,
            zluda_version: self.zluda_version@,
            device: self.device@,
            backend_key: self.backend_key@,
        }
    }
}

impl<'a> Clone for ModuleKey<'a> {
    fn clone(&self) -> (copy: Self)
        ensures
            copy == *self,
    {
        ModuleKey {
            hash: self.hash.clone(),
            compiler_version: self.compiler_version,
            zluda_version: self.zluda_version,
            device: self.device,
            backend_key: self.backend_key.clone(),
            last_access: self.last_access,
        }
    }
}

impl ExtraCacheAttributes {
    /// The attributes as members of an object. The two launch-tuning attributes are left out when
    /// they are not set.
    pub open spec fn members(self) -> Seq<Member> {
        seq![
            ("is_debug"@, JsonScalar::Bool(self.is_debug)),
            ("clock_rate"@, JsonScalar::Number(self.clock_rate)),
            ("cumode"@, JsonScalar::Bool(self.cumode)),
        ] + self.tuning_members() + seq![
            ("codegen_parts"@, JsonScalar::Number(self.codegen_parts)),
        ]
    }

    /// The launch-tuning attributes that are set.
    pub open spec fn tuning_members(self) -> Seq<Member> {
        (if self.ignore_maxnreg {
            seq![("ignore_maxnreg"@, JsonScalar::Bool(true))]
        } else {
            Seq::empty()
        }) + match self.num_vgpr_override {
            Some(budget) => seq![("num_vgpr_override"@, JsonScalar::Number(budget))],
            None => Seq::empty(),
        }
    }

    /// The text of the attributes.
    pub open spec fn text(self) -> Seq<char> {
        object_text(self.members())
    }

    /// The text that a build that knows of no CU mode gives the same attributes.
    pub open spec fn text_without_cumode(self) -> Seq<char> {
        object_text(
            seq![
                ("is_debug"@, JsonScalar::Bool(self.is_debug)),
                ("clock_rate"@, JsonScalar::Number(self.clock_rate)),
            ] + self.tuning_members() + seq![
                ("codegen_parts"@, JsonScalar::Number(self.codegen_parts)),
            ],
        )
    }

    /// The attributes of a compilation, from the device, the build and the values of the variables
    /// `ZLUDA_IGNORE_MAXNREG` and `ZLUDA_NUM_VGPR`.
    pub fn from_settings(
        clock_rate: i32,
        is_debug: bool,
        cumode: bool,
        codegen_parts: u32,
        ignore_maxnreg: Option<&str>,
        num_vgpr: Option<&str>,
    ) -> (attributes: Self)
        ensures
            attributes.clock_rate == clock_rate as u32,
            attributes.is_debug == is_debug,
            attributes.cumode == cumode,
            attributes.codegen_parts == codegen_parts,
            attributes.ignore_maxnreg == (ignore_maxnreg matches Some(value) && value@ == "1"@),
            attributes.num_vgpr_override == match num_vgpr {
                Some(value) => u32_of_text(value@),
                None => None,
            },
    {
        ExtraCacheAttributes {
            clock_rate: #[verifier::truncate] (clock_rate as u32),
            is_debug,
            cumode,
            codegen_parts,
            ignore_maxnreg: match ignore_maxnreg {
                Some(value) => text::same(value, "1"),
                None => false,
            },
            num_vgpr_override: match num_vgpr {
                Some(value) => text::parse_u32(value),
                None => None,
            },
        }
    }

    /// The attributes as text: the members in the order of their declaration.
    pub fn serialize(&self) -> (text: Option<String>)
        ensures
            text is Some,
            text->Some_0@ == self.text(),
    {
        let mut members: Vec<(&'static str, JsonScalar)> = Vec::new();
        members.push(("is_debug", JsonScalar::Bool(self.is_debug)));
        members.push(("clock_rate", JsonScalar::Number(self.clock_rate)));
        members.push(("cumode", JsonScalar::Bool(self.cumode)));
        if self.ignore_maxnreg {
            members.push(("ignore_maxnreg", JsonScalar::Bool(true)));
        }
        match self.num_vgpr_override {
            Some(budget) => members.push(("num_vgpr_override", JsonScalar::Number(budget))),
            None => {},
        }
        members.push(("codegen_parts", JsonScalar::Number(self.codegen_parts)));
        proof {
            assert(listed(members@) =~= self.members());
            lemma_members_are_words(*self);
        }
        json::serialize_object(&members)
    }
}

/// The BLAKE3 hash of some bytes in lower-case hexadecimal digits.
pub uninterp spec fn blake3_hex(input: Seq<u8>) -> Seq<char>;

/// Whether `text` is sixty-four lower-case hexadecimal digits.
pub open spec fn is_hash_text(text: Seq<char>) -> bool {
    &&& text.len() == 64
    &&& forall|i: int|
        0 <= i < text.len() ==> ('0' <= #[trigger] text[i] <= '9' || 'a' <= text[i] <= 'f')
}

/// Hashes bytes with `blake3::hash` and writes the hash out with `blake3::Hash::to_hex`.
///
/// What is relied on: the digits depend on the bytes alone, there are sixty-four of them, and each is
/// one of `0` to `9` and `a` to `f`.
#[verifier::external_body]
fn hash_bytes(input: &[u8]) -> (hex: String)
    ensures
        hex@ == blake3_hex(input@),
        is_hash_text(hex@),
{
    blake3::hash(input).to_hex().as_str().to_owned()
}

/// The key for a translation of `text` for the device `isa`, by the compiler `zluda_version`, used
/// at the time `now`.
pub fn cache_key_at<'a>(
    isa: &'a str,
    text: &str,
    attributes: &ExtraCacheAttributes,
    zluda_version: &'a str,
    now: i64,
) -> (key: Option<ModuleKey<'a>>)
    ensures
        key matches Some(key) && {
            &&& key.hash@ == blake3_hex(encode_utf8(text@))
            &&& is_hash_text(key.hash@)
            &&& key.compiler_version@ == "builtin"@
            &&& key.zluda_version@ == zluda_version@
            &&& key.device@ == isa@
            &&& key.backend_key@ == attributes.text()
            &&& key.last_access == now
        },
{
    let backend_key = match attributes.serialize() {
        Some(serialized) => serialized,
        None => {
            return None;
        },
    };
    Some(
        ModuleKey {
            hash: hash_bytes(text.as_bytes()),
            compiler_version: "builtin",
            zluda_version,
            device: isa,
            backend_key,
            last_access: now,
        },
    )
}

/// The key for a translation of `text` for the device `isa`, by the compiler `zluda_version`, used
/// now. The time is the one that the system clock gives.
pub fn get_cache_key<'a>(
    isa: &'a str,
    text: &str,
    attributes: &ExtraCacheAttributes,
    zluda_version: &'a str,
) -> (key: Option<ModuleKey<'a>>)
    ensures
        key matches Some(key) && {
            &&& key.hash@ == blake3_hex(encode_utf8(text@))
            &&& is_hash_text(key.hash@)
            &&& key.compiler_version@ == "builtin"@
            &&& key.zluda_version@ == zluda_version@
            &&& key.device@ == isa@
            &&& key.backend_key@ == attributes.text()
            &&& is_clock_time(key.last_access)
        },
{
    cache_key_at(isa, text, attributes, zluda_version, ModuleCache::time_now())
}

/// The text that is taken out of a key to get the key of an entry from before CU mode was an
/// attribute.
pub open spec fn cumode_text() -> Seq<char> {
    ",\"cumode\":true"@
}

/// The key under which an entry from before CU mode was an attribute would be found, where that is
/// another key. Such an entry was always compiled in CU mode, so it can only answer for that mode.
pub fn legacy_key<'a>(key: &ModuleKey<'a>, cumode: bool) -> (legacy: Option<ModuleKey<'a>>)
    ensures
        match legacy {
            Some(found) => {
                &&& cumode
                &&& found.backend_key@ == replaced(key.backend_key@, cumode_text(), Seq::empty())
                &&& found.backend_key@ != key.backend_key@
                &&& found.hash@ == key.hash@
                &&& found.compiler_version@ == key.compiler_version@
                &&& found.zluda_version@ == key.zluda_version@
                &&& found.device@ == key.device@
                &&& found.last_access == key.last_access
            },
            None => !cumode || replaced(key.backend_key@, cumode_text(), Seq::empty())
                == key.backend_key@,
        },
{
    if !cumode {
        return None;
    }
    let backend_key = text::replace(key.backend_key.as_str(), ",\"cumode\":true", "");
    proof {
        reveal_strlit("");
        assert(""@ =~= Seq::<char>::empty());
    }
    if backend_key == key.backend_key {
        return None;
    }
    Some(
        ModuleKey {
            hash: key.hash.clone(),
            compiler_version: key.compiler_version,
            zluda_version: key.zluda_version,
            device: key.device,
            backend_key,
            last_access: key.last_access,
        },
    )
}

/// The names of the attributes are made of letters and underscores.
proof fn lemma_names_are_words()
    ensures
        is_word("is_debug"@),
        is_word("clock_rate"@),
        is_word("cumode"@),
        is_word("ignore_maxnreg"@),
        is_word("num_vgpr_override"@),
        is_word("codegen_parts"@),
{
    reveal_strlit("is_debug");
    reveal_strlit("clock_rate");
    reveal_strlit("cumode");
    reveal_strlit("ignore_maxnreg");
    reveal_strlit("num_vgpr_override");
    reveal_strlit("codegen_parts");
    assert("is_debug"@ =~= seq!['i', 's', '_', 'd', 'e', 'b', 'u', 'g']);
    assert("clock_rate"@ =~= seq!['c', 'l', 'o', 'c', 'k', '_', 'r', 'a', 't', 'e']);
    assert("cumode"@ =~= seq!['c', 'u', 'm', 'o', 'd', 'e']);
    assert("ignore_maxnreg"@ =~= seq![
        'i', 'g', 'n', 'o', 'r', 'e', '_', 'm', 'a', 'x', 'n', 'r', 'e', 'g',
    ]);
    assert("num_vgpr_override"@ =~= seq![
        'n', 'u', 'm', '_', 'v', 'g', 'p', 'r', '_', 'o', 'v', 'e', 'r', 'r', 'i', 'd', 'e',
    ]);
    assert("codegen_parts"@ =~= seq![
        'c', 'o', 'd', 'e', 'g', 'e', 'n', '_', 'p', 'a', 'r', 't', 's',
    ]);
}

/// The attributes have plain names.
proof fn lemma_members_are_words(attributes: ExtraCacheAttributes)
    ensures
        word_names(attributes.members()),
{
    lemma_names_are_words();
}

/// A build in which the two launch-tuning attributes are not set gives the same text as a build
/// that does not know of them: adding them did not invalidate any existing entry.
pub proof fn unset_tuning_leaves_no_trace(attributes: ExtraCacheAttributes)
    requires
        !attributes.ignore_maxnreg,
        attributes.num_vgpr_override is None,
    ensures
        attributes.text() == object_text(
            seq![
                ("is_debug"@, JsonScalar::Bool(attributes.is_debug)),
                ("clock_rate"@, JsonScalar::Number(attributes.clock_rate)),
                ("cumode"@, JsonScalar::Bool(attributes.cumode)),
                ("codegen_parts"@, JsonScalar::Number(attributes.codegen_parts)),
            ],
        ),
{
    assert(attributes.members() =~= seq![
        ("is_debug"@, JsonScalar::Bool(attributes.is_debug)),
        ("clock_rate"@, JsonScalar::Number(attributes.clock_rate)),
        ("cumode"@, JsonScalar::Bool(attributes.cumode)),
        ("codegen_parts"@, JsonScalar::Number(attributes.codegen_parts)),
    ]);
}

/// Attributes that differ in anything give keys that differ: an entry written under one set of
/// attributes never answers for another.
pub proof fn different_attributes_different_keys(a: ExtraCacheAttributes, b: ExtraCacheAttributes)
    requires
        a.text() == b.text(),
    ensures
        a == b,
{
    lemma_members_are_words(a);
    lemma_members_are_words(b);
    json::object_text_is_injective(a.members(), b.members());
    reveal_strlit("ignore_maxnreg");
    reveal_strlit("num_vgpr_override");
    reveal_strlit("codegen_parts");
    let x = a.members();
    let y = b.members();
    assert(x[0] == y[0] && x[1] == y[1] && x[2] == y[2]);
    assert(x.last() == y.last());
    assert(x[3] == y[3]);
    assert("ignore_maxnreg"@[0] == 'i');
    assert("num_vgpr_override"@[0] == 'n');
    assert("codegen_parts"@[0] == 'c');
    if a.ignore_maxnreg {
        assert(x[3].0 == "ignore_maxnreg"@);
        assert(x[4] == y[4]);
    }
}

/// The key of an entry from before CU mode was an attribute is the key without that attribute, and
/// it is another key exactly in CU mode.
pub proof fn legacy_key_is_the_key_without_cumode(attributes: ExtraCacheAttributes)
    ensures
        attributes.cumode ==> replaced(attributes.text(), cumode_text(), Seq::empty())
            == attributes.text_without_cumode(),
        attributes.cumode ==> attributes.text_without_cumode() != attributes.text(),
        !attributes.cumode ==> replaced(attributes.text(), cumode_text(), Seq::empty())
            == attributes.text(),
{
    let members = attributes.members();
    let gone: Member = ("cumode"@, JsonScalar::Bool(true));
    lemma_names_are_words();
    lemma_members_are_words(attributes);
    assert(cumode_text() =~= seq![','] + member_text(gone)) by {
        reveal_strlit(",\"cumode\":true");
        reveal_strlit("cumode");
        reveal_strlit("true");
    }
    json::deleting_text_removes_member(members, "cumode"@);
    let rest = members.skip(1);
    assert("clock_rate"@ != "cumode"@ && "ignore_maxnreg"@ != "cumode"@ && "num_vgpr_override"@
        != "cumode"@ && "codegen_parts"@ != "cumode"@) by {
        reveal_strlit("clock_rate");
        reveal_strlit("ignore_maxnreg");
        reveal_strlit("num_vgpr_override");
        reveal_strlit("codegen_parts");
        reveal_strlit("cumode");
        assert("clock_rate"@[1] == 'l' && "cumode"@[1] == 'u' && "cumode"@[0] == 'c');
        assert("ignore_maxnreg"@[0] == 'i' && "num_vgpr_override"@[0] == 'n' && "codegen_parts"@[1]
            == 'o');
    }
    let after = rest.skip(2);
    assert(after =~= attributes.tuning_members() + seq![
        ("codegen_parts"@, JsonScalar::Number(attributes.codegen_parts)),
    ]);
    lemma_without_absent(after, gone);
    assert(rest.skip(1).skip(1) =~= after);
    assert(rest[0] == ("clock_rate"@, JsonScalar::Number(attributes.clock_rate)));
    assert(rest.skip(1)[0] == ("cumode"@, JsonScalar::Bool(attributes.cumode)));
    reveal_with_fuel(without, 3);
    if attributes.cumode {
        assert(without(rest, gone) =~= seq![rest[0]] + after);
        assert(seq![members[0]] + without(rest, gone) =~= seq![
            ("is_debug"@, JsonScalar::Bool(attributes.is_debug)),
            ("clock_rate"@, JsonScalar::Number(attributes.clock_rate)),
        ] + attributes.tuning_members() + seq![
            ("codegen_parts"@, JsonScalar::Number(attributes.codegen_parts)),
        ]);
        let shorter = seq![members[0]] + without(rest, gone);
        if attributes.text_without_cumode() == attributes.text() {
            assert(word_names(shorter));
            json::object_text_is_injective(shorter, members);
            assert(shorter.len() + 1 == members.len());
        }
    } else {
        assert(without(rest, gone) =~= rest);
        assert(seq![members[0]] + rest =~= members);
    }
}

/// Removing what is not there changes nothing.
proof fn lemma_without_absent(members: Seq<Member>, gone: Member)
    requires
        forall|i: int| 0 <= i < members.len() ==> #[trigger] members[i] != gone,
    ensures
        without(members, gone) == members,
    decreases members.len(),
{
    if members.len() > 0 {
        lemma_without_absent(members.skip(1), gone);
        assert(seq![members[0]] + members.skip(1) =~= members);
    }
}

/// A boolean as JSON writes it.
pub open spec fn bool_text(value: bool) -> Seq<char> {
    if value {
        "true"@
    } else {
        "false"@
    }
}

/// How the text ends that a key records of attributes with these values.
pub open spec fn recorded_end(
    ignore_maxnreg: bool,
    num_vgpr_override: Option<u32>,
    codegen_parts: u32,
) -> Seq<char> {
    let parts = ",\"codegen_parts\":"@ + (decimal(codegen_parts as nat) + "}"@);
    let budget = match num_vgpr_override {
        Some(budget) => ",\"num_vgpr_override\":"@ + (decimal(budget as nat) + parts),
        None => parts,
    };
    if ignore_maxnreg {
        ",\"ignore_maxnreg\":"@ + ("true"@ + budget)
    } else {
        budget
    }
}

/// The text that a key records of attributes with these values, character by character.
pub open spec fn recorded(
    is_debug: bool,
    clock_rate: u32,
    cumode: bool,
    ignore_maxnreg: bool,
    num_vgpr_override: Option<u32>,
    codegen_parts: u32,
) -> Seq<char> {
    let end = recorded_end(ignore_maxnreg, num_vgpr_override, codegen_parts);
    "{\"is_debug\":"@ + (bool_text(is_debug) + (",\"clock_rate\":"@ + (decimal(clock_rate as nat) + (
    ",\"cumode\":"@ + (bool_text(cumode) + end)))))
}

/// The text of members with more text behind it.
proof fn lemma_tail_then(members: Seq<Member>, literal: Seq<char>, end: Seq<char>)
    requires
        members.len() > 0,
        literal == seq![',', '"'] + members[0].0 + seq!['"', ':'],
    ensures
        tail_text(members) + end == literal + (scalar_text(members[0].1) + (tail_text(
            members.skip(1),
        ) + end)),
{
    let rest = tail_text(members.skip(1));
    let value = scalar_text(members[0].1);
    let name = members[0].0;
    assert(tail_text(members) == seq![','] + (seq!['"'] + name + seq!['"', ':'] + value) + rest);
    assert(seq![','] + (seq!['"'] + name + seq!['"', ':'] + value) + rest + end =~= seq![',', '"']
        + name + seq!['"', ':'] + (value + (rest + end)));
}

/// What stands before the names in the text.
proof fn lemma_names_in_quotes()
    ensures
        "{\"is_debug\":"@ == seq!['{', '"'] + "is_debug"@ + seq!['"', ':'],
        ",\"clock_rate\":"@ == seq![',', '"'] + "clock_rate"@ + seq!['"', ':'],
        ",\"cumode\":"@ == seq![',', '"'] + "cumode"@ + seq!['"', ':'],
        ",\"ignore_maxnreg\":"@ == seq![',', '"'] + "ignore_maxnreg"@ + seq!['"', ':'],
        ",\"num_vgpr_override\":"@ == seq![',', '"'] + "num_vgpr_override"@ + seq!['"', ':'],
        ",\"codegen_parts\":"@ == seq![',', '"'] + "codegen_parts"@ + seq!['"', ':'],
        "}"@ == seq!['}'],
{
    assert("{\"is_debug\":"@ =~= seq!['{', '"'] + "is_debug"@ + seq!['"', ':']) by {
        reveal_strlit("{\"is_debug\":");
        reveal_strlit("is_debug");
    }
    assert(",\"clock_rate\":"@ =~= seq![',', '"'] + "clock_rate"@ + seq!['"', ':']) by {
        reveal_strlit(",\"clock_rate\":");
        reveal_strlit("clock_rate");
    }
    assert(",\"cumode\":"@ =~= seq![',', '"'] + "cumode"@ + seq!['"', ':']) by {
        reveal_strlit(",\"cumode\":");
        reveal_strlit("cumode");
    }
    assert(",\"ignore_maxnreg\":"@ =~= seq![',', '"'] + "ignore_maxnreg"@ + seq!['"', ':']) by {
        reveal_strlit(",\"ignore_maxnreg\":");
        reveal_strlit("ignore_maxnreg");
    }
    assert(",\"num_vgpr_override\":"@ =~= seq![',', '"'] + "num_vgpr_override"@ + seq!['"', ':']) by {
        reveal_strlit(",\"num_vgpr_override\":");
        reveal_strlit("num_vgpr_override");
    }
    assert(",\"codegen_parts\":"@ =~= seq![',', '"'] + "codegen_parts"@ + seq!['"', ':']) by {
        reveal_strlit(",\"codegen_parts\":");
        reveal_strlit("codegen_parts");
    }
    assert("}"@ =~= seq!['}']) by {
        reveal_strlit("}");
    }
}

/// The end of the text is that of the members from the launch-tuning attributes on.
proof fn lemma_recorded_end(a: ExtraCacheAttributes)
    ensures
        tail_text(
            a.tuning_members() + seq![("codegen_parts"@, JsonScalar::Number(a.codegen_parts))],
        ) + seq!['}'] == recorded_end(a.ignore_maxnreg, a.num_vgpr_override, a.codegen_parts),
{
    lemma_names_in_quotes();
    let last: Seq<Member> = seq![("codegen_parts"@, JsonScalar::Number(a.codegen_parts))];
    lemma_tail_then(last, ",\"codegen_parts\":"@, seq!['}']);
    assert(last.skip(1) =~= Seq::empty());
    assert(tail_text(last.skip(1)) + seq!['}'] =~= "}"@);
    let budget: Seq<Member> = match a.num_vgpr_override {
        Some(n) => seq![("num_vgpr_override"@, JsonScalar::Number(n))] + last,
        None => last,
    };
    if a.num_vgpr_override is Some {
        lemma_tail_then(budget, ",\"num_vgpr_override\":"@, seq!['}']);
        assert(budget.skip(1) =~= last);
    }
    let all = a.tuning_members() + last;
    if a.ignore_maxnreg {
        lemma_tail_then(all, ",\"ignore_maxnreg\":"@, seq!['}']);
        assert(all.skip(1) =~= budget);
    } else {
        assert(all =~= budget);
    }
}

/// The text of an object is that of its first member with the text of the others behind it.
proof fn lemma_object_then(members: Seq<Member>, literal: Seq<char>)
    requires
        members.len() > 0,
        literal == seq!['{', '"'] + members[0].0 + seq!['"', ':'],
    ensures
        object_text(members) == literal + (scalar_text(members[0].1) + (tail_text(members.skip(1))
            + seq!['}'])),
{
    let rest = tail_text(members.skip(1));
    let value = scalar_text(members[0].1);
    let name = members[0].0;
    assert(object_text(members) == seq!['{'] + (seq!['"'] + name + seq!['"', ':'] + value) + rest
        + seq!['}']);
    assert(seq!['{'] + (seq!['"'] + name + seq!['"', ':'] + value) + rest + seq!['}'] =~= seq![
        '{',
        '"',
    ] + name + seq!['"', ':'] + (value + (rest + seq!['}'])));
}

/// What a key records of the attributes is every one of them, under its name and in this order; the
/// two launch-tuning attributes leave no trace where they are not set.
pub(crate) proof fn lemma_recorded(a: ExtraCacheAttributes)
    ensures
        a.text() == recorded(
            a.is_debug,
            a.clock_rate,
            a.cumode,
            a.ignore_maxnreg,
            a.num_vgpr_override,
            a.codegen_parts,
        ),
{
    let m = a.members();
    lemma_names_in_quotes();
    lemma_recorded_end(a);
    lemma_object_then(m, "{\"is_debug\":"@);
    lemma_tail_then(m.skip(1), ",\"clock_rate\":"@, seq!['}']);
    lemma_tail_then(m.skip(1).skip(1), ",\"cumode\":"@, seq!['}']);
    assert(m.skip(1).skip(1).skip(1) =~= a.tuning_members() + seq![
        ("codegen_parts"@, JsonScalar::Number(a.codegen_parts)),
    ]);
}

/// The text that an older build gives the attributes is the same with the mode left out.
proof fn lemma_recorded_without_cumode(a: ExtraCacheAttributes)
    ensures
        a.text_without_cumode() == "{\"is_debug\":"@ + (bool_text(a.is_debug) + (
        ",\"clock_rate\":"@ + (decimal(a.clock_rate as nat) + recorded_end(
            a.ignore_maxnreg,
            a.num_vgpr_override,
            a.codegen_parts,
        )))),
{
    let m = seq![
        ("is_debug"@, JsonScalar::Bool(a.is_debug)),
        ("clock_rate"@, JsonScalar::Number(a.clock_rate)),
    ] + a.tuning_members() + seq![("codegen_parts"@, JsonScalar::Number(a.codegen_parts))];
    lemma_names_in_quotes();
    lemma_recorded_end(a);
    lemma_object_then(m, "{\"is_debug\":"@);
    lemma_tail_then(m.skip(1), ",\"clock_rate\":"@, seq!['}']);
    assert(m.skip(1).skip(1) =~= a.tuning_members() + seq![
        ("codegen_parts"@, JsonScalar::Number(a.codegen_parts)),
    ]);
}

/// Serializing writes every attribute under its name, with its value and in this order.
pub proof fn every_attribute_is_written(a: ExtraCacheAttributes, text: Option<String>)
    requires
        call_ensures(ExtraCacheAttributes::serialize, (&a,), text),
    ensures
        text is Some,
        text->Some_0@ == recorded(
            a.is_debug,
            a.clock_rate,
            a.cumode,
            a.ignore_maxnreg,
            a.num_vgpr_override,
            a.codegen_parts,
        ),
{
    lemma_recorded(a);
}

/// A key names the text by its hash, the compiler, the device and every attribute, and carries the
/// time that it was made for.
pub proof fn key_records_what_it_was_made_from<'a>(
    isa: &'a str,
    text: &str,
    a: &ExtraCacheAttributes,
    zluda_version: &'a str,
    now: i64,
    key: Option<ModuleKey<'a>>,
)
    requires
        call_ensures(cache_key_at, (isa, text, a, zluda_version, now), key),
    ensures
        key is Some,
        key->Some_0.hash@ == blake3_hex(encode_utf8(text@)),
        key->Some_0.compiler_version@ == "builtin"@,
        key->Some_0.zluda_version@ == zluda_version@,
        key->Some_0.device@ == isa@,
        key->Some_0.last_access == now,
        key->Some_0.backend_key@ == recorded(
            a.is_debug,
            a.clock_rate,
            a.cumode,
            a.ignore_maxnreg,
            a.num_vgpr_override,
            a.codegen_parts,
        ),
{
    lemma_recorded(*a);
}

/// The key that is made now records the same; only the time is the clock's.
pub proof fn fresh_key_records_what_it_was_made_from<'a>(
    isa: &'a str,
    text: &str,
    a: &ExtraCacheAttributes,
    zluda_version: &'a str,
    key: Option<ModuleKey<'a>>,
)
    requires
        call_ensures(get_cache_key, (isa, text, a, zluda_version), key),
    ensures
        key is Some,
        key->Some_0.hash@ == blake3_hex(encode_utf8(text@)),
        key->Some_0.compiler_version@ == "builtin"@,
        key->Some_0.zluda_version@ == zluda_version@,
        key->Some_0.device@ == isa@,
        key->Some_0.backend_key@ == recorded(
            a.is_debug,
            a.clock_rate,
            a.cumode,
            a.ignore_maxnreg,
            a.num_vgpr_override,
            a.codegen_parts,
        ),
{
    lemma_recorded(*a);
}

/// The older key of a key made in CU mode differs from it in the one attribute alone that older builds
/// did not know; in the other mode there is none.
pub proof fn older_key_lacks_the_mode<'a>(
    key: &ModuleKey<'a>,
    a: ExtraCacheAttributes,
    legacy: Option<ModuleKey<'a>>,
)
    requires
        call_ensures(legacy_key, (key, a.cumode), legacy),
        key.backend_key@ == a.text(),
    ensures
        legacy is Some <==> a.cumode,
        a.cumode ==> {
            let found = legacy->Some_0;
            &&& found.hash@ == key.hash@
            &&& found.compiler_version@ == key.compiler_version@
            &&& found.zluda_version@ == key.zluda_version@
            &&& found.device@ == key.device@
            &&& found.last_access == key.last_access
            &&& found.backend_key@ == "{\"is_debug\":"@ + (bool_text(a.is_debug) + (
            ",\"clock_rate\":"@ + (decimal(a.clock_rate as nat) + recorded_end(
                a.ignore_maxnreg,
                a.num_vgpr_override,
                a.codegen_parts,
            ))))
        },
{
    legacy_key_is_the_key_without_cumode(a);
    if a.cumode {
        lemma_recorded_without_cumode(a);
    }
}

/// The attributes of a compilation are those that were given: the clock rate bit for bit, the
/// directive dropped if and only if the variable is `1`, and the budget that the variable writes.
pub proof fn attributes_are_those_given(
    clock_rate: i32,
    is_debug: bool,
    cumode: bool,
    codegen_parts: u32,
    ignore_maxnreg: Option<&str>,
    num_vgpr: Option<&str>,
    a: ExtraCacheAttributes,
)
    requires
        call_ensures(
            ExtraCacheAttributes::from_settings,
            (clock_rate, is_debug, cumode, codegen_parts, ignore_maxnreg, num_vgpr),
            a,
        ),
    ensures
        clock_rate >= 0 ==> a.clock_rate == clock_rate,
        clock_rate < 0 ==> a.clock_rate == clock_rate + 0x1_0000_0000,
        a.is_debug == is_debug,
        a.cumode == cumode,
        a.codegen_parts == codegen_parts,
        a.ignore_maxnreg <==> (ignore_maxnreg is Some && ignore_maxnreg->Some_0@ == seq!['1']),
        num_vgpr is None ==> a.num_vgpr_override is None,
        num_vgpr is Some ==> forall|n: u32|
            num_vgpr->Some_0@ == #[trigger] decimal(n as nat) ==> a.num_vgpr_override == Some(n),
{
    assert(clock_rate >= 0 ==> (clock_rate as u32) as int == clock_rate) by (bit_vector);
    assert(clock_rate < 0 ==> (clock_rate as u32) as int == clock_rate + 0x1_0000_0000)
        by (bit_vector);
    reveal_strlit("1");
    assert("1"@ =~= seq!['1']);
    if num_vgpr is Some {
        assert forall|n: u32| num_vgpr->Some_0@ == #[trigger] decimal(n as nat) implies
            a.num_vgpr_override == Some(n) by {
            text::lemma_decimal_value(n as nat);
        }
    }
}

} // verus!
