//! Which of the PTX modules in an image is translated, and what is read off it.
use crate::text::text_of_bytes;
use vstd::prelude::*;
use vstd::utf8::{decode_utf8, encode_utf8, valid_utf8};

verus! {

/// A directive of a parsed PTX module. What it holds besides is of type `D`.
pub enum Directive<D> {
    /// A function that can be launched.
    Kernel(D),
    /// A function that cannot.
    Function(D),
    Other(D),
}

/// A parsed PTX module.
pub struct PtxModule<D> {
    pub ptx_version: (u8, u8),
    pub sm_version: u32,
    pub directives: Vec<Directive<D>>,
    /// How many directives were not recognised and left out.
    pub invalid_directives: usize,
    pub address_size: u8,
}

/// A module in an image.
pub enum CodeModule {
    /// Plain PTX text.
    Text(String),
    /// A file: whether its kind is PTX, and its content, where it could be decompressed.
    File { ptx: bool, content: Option<Vec<u8>> },
    /// A module that could not be read.
    Unreadable,
}

/// The PTX text of a module in an image, where it is one.
pub open spec fn ptx_text(module: CodeModule) -> Option<Seq<char>> {
    match module {
        CodeModule::Text(text) => Some(text@),
        CodeModule::File { ptx: true, content: Some(bytes) } => if valid_utf8(bytes@) {
            Some(decode_utf8(bytes@))
        } else {
            None
        },
        _ => None,
    }
}

/// The PTX texts in an image, in their order.
pub open spec fn ptx_texts(modules: Seq<CodeModule>) -> Seq<Seq<char>>
    decreases modules.len(),
{
    if modules.len() == 0 {
        Seq::empty()
    } else {
        let before = ptx_texts(modules.drop_last());
        match ptx_text(modules.last()) {
            Some(text) => before.push(text),
            None => before,
        }
    }
}

/// The characters of each text.
pub open spec fn texts_view(texts: Seq<String>) -> Seq<Seq<char>> {
    texts.map_values(|text: String| text@)
}

/// The PTX texts in an image. Modules that are no PTX, and files that cannot be decompressed or are
/// no valid text, are passed over.
pub fn collect_ptx(modules: Vec<CodeModule>) -> (texts: Vec<String>)
    ensures
        texts_view(texts@) == ptx_texts(modules@),
{
    let ghost all = modules@;
    let mut texts: Vec<String> = Vec::new();
    for module in iter: modules
        invariant
            iter.seq() == all,
            texts_view(texts@) == ptx_texts(all.take(iter.index() as int)),
    {
        let ghost n = iter.index() as int;
        let ghost before = texts@;
        assert(all.take(n + 1).drop_last() =~= all.take(n));
        assert(all.take(n + 1).last() == module);
        match module {
            CodeModule::Text(text) => texts.push(text),
            CodeModule::File { ptx, content } => if ptx {
                match content {
                    Some(bytes) => match text_of_bytes(bytes) {
                        Some(text) => texts.push(text),
                        None => {},
                    },
                    None => {},
                }
            },
            CodeModule::Unreadable => {},
        }
        proof {
            match ptx_text(module) {
                Some(text) => {
                    assert(texts_view(texts@) =~= texts_view(before).push(text));
                },
                None => {
                    assert(texts@ == before);
                },
            }
        }
    }
    assert(all.take(all.len() as int) =~= all);
    texts
}

/// Whether `picked` is the module to translate, if `answers` are what parsing the texts from
/// `from` on came to.
///
/// The texts are tried from the last to the first. The first one in which every directive was
/// recognised is taken at once. If there is none, the one with the fewest unrecognised directives
/// is taken, and of several with equally few the last.
pub open spec fn is_best<D>(
    answers: Seq<Option<PtxModule<D>>>,
    from: int,
    picked: Option<(usize, PtxModule<D>)>,
) -> bool {
    match picked {
        Some((k, module)) => {
            &&& from <= k < answers.len()
            &&& answers[k as int] == Some(module)
            &&& forall|j: int|
                k < j < answers.len() ==> (#[trigger] answers[j] matches Some(other)
                    ==> other.invalid_directives > module.invalid_directives)
            &&& forall|j: int|
                from <= j < k ==> (#[trigger] answers[j] matches Some(other)
                    ==> other.invalid_directives >= module.invalid_directives)
            &&& from > 0 ==> module.invalid_directives == 0
            &&& module.invalid_directives == 0 ==> from == k
        },
        None => from == 0 && forall|j: int| 0 <= j < answers.len() ==> (#[trigger] answers[j]) is None,
    }
}

/// Whether `answers` from `from` on are what `parse` gave for the texts.
pub open spec fn parsed_from<D, P: Fn(&String) -> Option<PtxModule<D>>>(
    parse: P,
    texts: Seq<String>,
    answers: Seq<Option<PtxModule<D>>>,
    from: int,
) -> bool {
    &&& answers.len() == texts.len()
    &&& 0 <= from <= texts.len()
    &&& forall|j: int|
        from <= j < texts.len() ==> parse.ensures((&texts[j],), #[trigger] answers[j])
}

/// Whether the texts may be parsed, from the last to the first, until one is found in which every
/// directive was recognised.
pub open spec fn may_parse<D, P: Fn(&String) -> Option<PtxModule<D>>>(
    parse: P,
    texts: Seq<String>,
) -> bool {
    forall|answers: Seq<Option<PtxModule<D>>>, from: int| #[trigger]
        parsed_from(parse, texts, answers, from) && from > 0 && none_perfect(answers, from)
            ==> parse.requires((&texts[from - 1],))
}

/// Whether in none of the modules from `from` on every directive was recognised.
pub open spec fn none_perfect<D>(answers: Seq<Option<PtxModule<D>>>, from: int) -> bool {
    forall|j: int|
        from <= j < answers.len() ==> (#[trigger] answers[j] matches Some(module)
            ==> module.invalid_directives > 0)
}

/// Picks the module to translate among the PTX texts of an image, parsing as few of them as it
/// takes.
pub fn best_ptx<D, P: Fn(&String) -> Option<PtxModule<D>>>(texts: &Vec<String>, parse: P) -> (picked:
    Option<(usize, PtxModule<D>)>)
    requires
        may_parse(parse, texts@),
    ensures
        exists|answers: Seq<Option<PtxModule<D>>>, from: int| #[trigger]
            parsed_from(parse, texts@, answers, from) && is_best(answers, from, picked),
{
    let ghost mut answers: Seq<Option<PtxModule<D>>> = Seq::new(
        texts@.len(),
        |j: int| None::<PtxModule<D>>,
    );
    let mut best: Option<(usize, PtxModule<D>)> = None;
    let mut i: usize = texts.len();
    while i > 0
        invariant
            i <= texts@.len(),
            may_parse(parse, texts@),
            parsed_from(parse, texts@, answers, i as int),
            none_perfect(answers, i as int),
            match best {
                Some((k, module)) => {
                    &&& i <= k < answers.len()
                    &&& answers[k as int] == Some(module)
                    &&& module.invalid_directives > 0
                    &&& forall|j: int|
                        k < j < answers.len() ==> (#[trigger] answers[j] matches Some(other)
                            ==> other.invalid_directives > module.invalid_directives)
                    &&& forall|j: int|
                        i <= j < k ==> (#[trigger] answers[j] matches Some(other)
                            ==> other.invalid_directives >= module.invalid_directives)
                },
                None => forall|j: int|
                    i <= j < answers.len() ==> (#[trigger] answers[j]) is None,
            },
        decreases i,
    {
        i -= 1;
        let answer = parse(&texts[i]);
        proof {
            answers = answers.update(i as int, answer);
            assert(parsed_from(parse, texts@, answers, i as int));
        }
        match answer {
            None => {},
            Some(module) => {
                if module.invalid_directives == 0 {
                    let picked = Some((i, module));
                    assert(is_best(answers, i as int, picked));
                    return picked;
                }
                let better: bool = match &best {
                    Some((_, known)) => module.invalid_directives < known.invalid_directives,
                    None => true,
                };
                if better {
                    best = Some((i, module));
                }
            },
        }
    }
    assert(is_best(answers, 0, best));
    best
}

/// What parsing the texts comes to decides which module is picked.
pub proof fn choice_is_determined<D>(
    answers: Seq<Option<PtxModule<D>>>,
    from: int,
    picked: Option<(usize, PtxModule<D>)>,
    other_from: int,
    other: Option<(usize, PtxModule<D>)>,
)
    requires
        0 <= from <= answers.len(),
        0 <= other_from <= answers.len(),
        is_best(answers, from, picked),
        is_best(answers, other_from, other),
    ensures
        picked == other,
{
    match (picked, other) {
        (Some((k, module)), Some((l, module2))) => {
            if k < l {
                assert(answers[l as int] is Some);
                assert(answers[k as int] is Some);
            } else if l < k {
                assert(answers[l as int] is Some);
                assert(answers[k as int] is Some);
            }
        },
        (Some((k, module)), None) => {
            assert(answers[k as int] is None);
        },
        (None, Some((l, module2))) => {
            assert(answers[l as int] is None);
        },
        (None, None) => {},
    }
}

/// How many of the directives are functions that can be launched.
pub open spec fn kernels_declared<D>(directives: Seq<Directive<D>>) -> nat
    decreases directives.len(),
{
    if directives.len() == 0 {
        0
    } else {
        kernels_declared(directives.drop_last()) + if directives.last() is Kernel {
            1nat
        } else {
            0nat
        }
    }
}

/// How many kernels a module asks for. Both the cache and the translation are held to it: an object
/// with none of them is not an answer.
pub fn count_kernels_declared<D>(module: &PtxModule<D>) -> (count: usize)
    ensures
        count == kernels_declared(module.directives@),
{
    let mut count: usize = 0;
    let mut i: usize = 0;
    while i < module.directives.len()
        invariant
            i <= module.directives@.len(),
            count <= i,
            count == kernels_declared(module.directives@.take(i as int)),
        decreases module.directives@.len() - i,
    {
        match &module.directives[i] {
            Directive::Kernel(_) => {
                count += 1;
            },
            _ => {},
        }
        i += 1;
        assert(module.directives@.take(i as int).drop_last() =~= module.directives@.take(i - 1));
    }
    assert(module.directives@.take(i as int) =~= module.directives@);
    count
}

/// Whether a module is the one that stands for an image without any PTX.
pub open spec fn is_empty_module<D>(module: PtxModule<D>) -> bool {
    &&& module.ptx_version == (1u8, 0u8)
    &&& module.sm_version == 0
    &&& module.directives@.len() == 0
    &&& module.invalid_directives == usize::MAX
    &&& module.address_size == 64
}

/// The module that stands for an image without any PTX.
pub fn empty_module<D>() -> (module: PtxModule<D>)
    ensures
        is_empty_module(module),
{
    PtxModule {
        ptx_version: (1, 0),
        sm_version: 0,
        directives: Vec::new(),
        invalid_directives: usize::MAX,
        address_size: 64,
    }
}

/// Every module of an image gives its text, in its order: one module more gives one text more if it is
/// plain text, or a PTX file whose content could be decompressed and is valid text; nothing else adds
/// anything.
pub proof fn image_gives_its_texts_in_order(
    modules: Vec<CodeModule>,
    longer: Vec<CodeModule>,
    last: CodeModule,
    texts: Vec<String>,
    more: Vec<String>,
)
    requires
        call_ensures(collect_ptx, (modules,), texts),
        call_ensures(collect_ptx, (longer,), more),
        longer@ == modules@.push(last),
    ensures
        modules@.len() == 0 ==> texts@.len() == 0,
        forall|i: int|
            0 <= i < texts@.len() ==> i < more@.len() && (#[trigger] texts@[i])@ == more@[i]@,
        match last {
            CodeModule::Text(text) => more@.len() == texts@.len() + 1 && more@.last()@ == text@,
            CodeModule::File { ptx, content } => if ptx && content is Some && valid_utf8(
                content->Some_0@,
            ) {
                more@.len() == texts@.len() + 1 && encode_utf8(more@.last()@) == content->Some_0@
            } else {
                more@.len() == texts@.len()
            },
            CodeModule::Unreadable => more@.len() == texts@.len(),
        },
{
    assert(longer@.drop_last() =~= modules@);
    let a = texts_view(texts@);
    let b = texts_view(more@);
    assert(a.len() == texts@.len() && b.len() == more@.len());
    assert forall|i: int| 0 <= i < texts@.len() implies i < more@.len() && (#[trigger] texts@[i])@
        == more@[i]@ by {
        assert(a[i] == texts@[i]@);
        assert(b[i] == more@[i]@);
    }
    if b.len() > a.len() {
        assert(b.last() == more@.last()@);
    }
    if let CodeModule::File { ptx: true, content: Some(bytes) } = last {
        if valid_utf8(bytes@) {
            vstd::utf8::decode_utf8_encode_utf8(bytes@);
        }
    }
}

/// The module that is picked is the one with the fewest directives that were not recognised, and of
/// several with equally few the last. The texts are parsed from the last on, and no more of them once
/// everything was recognised in one. Nothing is picked only if none of the texts could be parsed.
pub proof fn fewest_unrecognised_is_picked<D, P: Fn(&String) -> Option<PtxModule<D>>>(
    texts: &Vec<String>,
    parse: P,
    picked: Option<(usize, PtxModule<D>)>,
) -> (tried: (Seq<Option<PtxModule<D>>>, int))
    requires
        call_ensures(best_ptx::<D, P>, (texts, parse), picked),
    ensures
        best_of(parse, texts@, tried.0, tried.1, picked),
{
    let (answers, from) = choose|answers: Seq<Option<PtxModule<D>>>, from: int| #[trigger]
        parsed_from(parse, texts@, answers, from) && is_best(answers, from, picked);
    lemma_best_of(parse, texts@, answers, from, picked);
    (answers, from)
}

/// One directive more asks for one kernel more if it is a kernel, and for none otherwise; a module
/// without directives asks for none.
pub proof fn every_kernel_is_counted<D>(
    module: &PtxModule<D>,
    longer: &PtxModule<D>,
    last: Directive<D>,
    count: usize,
    more: usize,
)
    requires
        call_ensures(count_kernels_declared::<D>, (module,), count),
        call_ensures(count_kernels_declared::<D>, (longer,), more),
        longer.directives@ == module.directives@.push(last),
    ensures
        module.directives@.len() == 0 ==> count == 0,
        last is Kernel ==> more == count + 1,
        !(last is Kernel) ==> more == count,
{
    assert(longer.directives@.drop_last() =~= module.directives@);
}

/// The module that stands for an image without PTX holds nothing, and is the worst there can be.
pub proof fn empty_module_is_this<D>(module: PtxModule<D>)
    requires
        call_ensures(empty_module::<D>, (), module),
    ensures
        module.directives@.len() == 0,
        module.ptx_version == (1u8, 0u8),
        module.sm_version == 0,
        module.address_size == 64,
        module.invalid_directives == usize::MAX,
{
}

/// Whether a text is the one of a module: it is its text, or the content of a PTX file.
pub open spec fn is_text_of(text: Seq<char>, module: CodeModule) -> bool {
    match module {
        CodeModule::Text(plain) => text == plain@,
        CodeModule::File { ptx, content } => ptx && content is Some && encode_utf8(text)
            == content->Some_0@,
        CodeModule::Unreadable => false,
    }
}

/// Whether the texts are those of an image: they stand in modules at these places, from the first to
/// the last, and every module in which a text stands is among them.
pub open spec fn are_texts_of(texts: Seq<Seq<char>>, image: Seq<CodeModule>, places: Seq<int>) -> bool {
    &&& places.len() == texts.len()
    &&& forall|i: int|
        0 <= i < texts.len() ==> 0 <= #[trigger] places[i] < image.len() && is_text_of(
            texts[i],
            image[places[i]],
        )
    &&& forall|i: int, j: int| 0 <= i < j < places.len() ==> #[trigger] places[i] < #[trigger] places[j]
    &&& forall|k: int, text: Seq<char>|
        0 <= k < image.len() && #[trigger] is_text_of(text, image[k]) ==> places.contains(k)
}

/// The texts of an image are at their places.
pub(crate) proof fn lemma_texts_of(image: Seq<CodeModule>) -> (places: Seq<int>)
    ensures
        are_texts_of(ptx_texts(image), image, places),
    decreases image.len(),
{
    if image.len() == 0 {
        Seq::empty()
    } else {
        let shorter = image.drop_last();
        let before = lemma_texts_of(shorter);
        let last = image.len() - 1;
        let texts = ptx_texts(image);
        if let CodeModule::File { ptx: true, content: Some(bytes) } = image.last() {
            if valid_utf8(bytes@) {
                vstd::utf8::decode_utf8_encode_utf8(bytes@);
            }
        }
        let places = if ptx_text(image.last()) is Some {
            before.push(last)
        } else {
            before
        };
        assert forall|i: int| 0 <= i < texts.len() implies 0 <= #[trigger] places[i] < image.len()
            && is_text_of(texts[i], image[places[i]]) by {
            if i < before.len() {
                assert(places[i] == before[i]);
                assert(shorter[before[i]] == image[before[i]]);
            }
        }
        assert forall|i: int, j: int| 0 <= i < j < places.len() implies #[trigger] places[i]
            < #[trigger] places[j] by {
            if j < before.len() {
                assert(before[i] < before[j]);
            } else {
                assert(before[i] < shorter.len());
            }
        }
        assert forall|k: int, text: Seq<char>|
            0 <= k < image.len() && #[trigger] is_text_of(text, image[k]) implies places.contains(
            k,
        ) by {
            if k < last {
                assert(is_text_of(text, shorter[k]));
                assert(before.contains(k));
                let i = choose|i: int| 0 <= i < before.len() && before[i] == k;
                assert(places[i] == k);
            } else {
                if let CodeModule::File { ptx, content } = image.last() {
                    vstd::utf8::encode_utf8_valid_utf8(text);
                }
                assert(ptx_text(image.last()) is Some);
                assert(places[places.len() - 1] == k);
            }
        }
        places
    }
}

/// Whether a module is the one to translate among the texts, by what parsing them from `from` on gave:
/// the one with the fewest directives that were not recognised, and of several with equally few the
/// last. The texts before `from` were not parsed, because everything was recognised in that one.
pub open spec fn best_of<D, P: Fn(&String) -> Option<PtxModule<D>>>(
    parse: P,
    texts: Seq<String>,
    answers: Seq<Option<PtxModule<D>>>,
    from: int,
    picked: Option<(usize, PtxModule<D>)>,
) -> bool {
    &&& answers.len() == texts.len()
    &&& 0 <= from <= texts.len()
    &&& forall|j: int|
        from <= j < texts.len() ==> parse.ensures((&texts[j],), #[trigger] answers[j])
    &&& from > 0 ==> picked is Some && picked->Some_0.1.invalid_directives == 0 && picked->Some_0.0
        == from
    &&& picked is Some ==> {
        let (k, module) = picked->Some_0;
        &&& from <= k < texts.len()
        &&& answers[k as int] == Some(module)
        &&& forall|j: int|
            from <= j < texts.len() && (#[trigger] answers[j]) is Some ==> {
                let other = answers[j]->Some_0.invalid_directives;
                &&& other >= module.invalid_directives
                &&& other == module.invalid_directives ==> j <= k
            }
    }
    &&& picked is None ==> forall|j: int| 0 <= j < texts.len() ==> (#[trigger] answers[j]) is None
}

/// What is best is the best of them.
pub(crate) proof fn lemma_best_of<D, P: Fn(&String) -> Option<PtxModule<D>>>(
    parse: P,
    texts: Seq<String>,
    answers: Seq<Option<PtxModule<D>>>,
    from: int,
    picked: Option<(usize, PtxModule<D>)>,
)
    requires
        parsed_from(parse, texts, answers, from),
        is_best(answers, from, picked),
    ensures
        best_of(parse, texts, answers, from, picked),
{
}

} // verus!
