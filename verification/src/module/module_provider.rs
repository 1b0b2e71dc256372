use super::module::{Module, ModuleView};
use std::sync::Arc;
use vstd::prelude::*;
use vstd::string::*;
use vstd::utf8::{decode_utf8, valid_utf8};

verus! {

/// Gives the content of modules.
pub trait ModuleProvider {
    /// Whether the provider may give this content for the module (`None`:
    /// that it has no content for it). A provider that does not say more,
    /// such as one that reads files, may give any content.
    open spec fn gives(&self, module: ModuleView, content: Option<Seq<u8>>) -> bool {
        true
    }

    fn get_content(&self, module: &Module) -> (result: Option<Arc<Vec<u8>>>)
        ensures
            self.gives(module@, content_view(result)),
    ;
}

/// The bytes of a content, if there is one.
pub open spec fn content_view(content: Option<Arc<Vec<u8>>>) -> Option<Seq<u8>> {
    match content {
        Some(bytes) => Some((*bytes)@),
        None => None,
    }
}

/// Whether a text is what a content gives as a string: nothing where there
/// is no content or it is no UTF-8, else the text that it encodes.
pub open spec fn is_content_text(content: Option<Seq<u8>>, text: Option<String>) -> bool {
    match content {
        None => text is None,
        Some(bytes) => match text {
            Some(text) => valid_utf8(bytes) && text@ == decode_utf8(bytes),
            None => !valid_utf8(bytes),
        },
    }
}

/// Shares the content of a module.
///
/// Calls `Arc::clone`, which (as its documentation says) makes another pointer
/// to the same allocation, so the content is the same.
#[verifier::external_body]
fn share_content(content: &Arc<Vec<u8>>) -> (result: Arc<Vec<u8>>)
    ensures
        (*result)@ == (**content)@,
{
    Arc::clone(content)
}

/// The contents of modules, held in memory: the contents of modules that are
/// open in an editor, for example.
pub struct InMemoryModuleProvider {
    modules: Vec<(Module, Arc<Vec<u8>>)>,
}

/// The modules and contents of a sequence of entries, later entries taking
/// the place of earlier ones for the same module.
pub open spec fn contents_of(entries: Seq<(Module, Arc<Vec<u8>>)>) -> Map<ModuleView, Seq<u8>>
    decreases entries.len(),
{
    if entries.len() == 0 {
        Map::empty()
    } else {
        contents_of(entries.drop_last()).insert(entries.last().0@, (*entries.last().1)@)
    }
}

/// Whether no module occurs twice among the entries.
pub open spec fn has_unique_modules(entries: Seq<(Module, Arc<Vec<u8>>)>) -> bool {
    forall|i: int, j: int|
        0 <= i < j < entries.len() ==> #[trigger] entries[i].0@ != #[trigger] entries[j].0@
}

proof fn lemma_contents_of_index(entries: Seq<(Module, Arc<Vec<u8>>)>, i: int)
    requires
        has_unique_modules(entries),
        0 <= i < entries.len(),
    ensures
        contents_of(entries).contains_key(entries[i].0@),
        contents_of(entries)[entries[i].0@] == (*entries[i].1)@,
    decreases entries.len(),
{
    if i < entries.len() - 1 {
        lemma_contents_of_index(entries.drop_last(), i);
        assert(entries[i].0@ != entries[entries.len() - 1].0@);
    }
}

proof fn lemma_contents_of_keys(entries: Seq<(Module, Arc<Vec<u8>>)>, module: ModuleView)
    ensures
        contents_of(entries).contains_key(module) <==> exists|i: int|
            0 <= i < entries.len() && #[trigger] entries[i].0@ == module,
    decreases entries.len(),
{
    if entries.len() > 0 {
        let rest = entries.drop_last();
        lemma_contents_of_keys(rest, module);
        if contents_of(rest).contains_key(module) {
            let i = choose|i: int| 0 <= i < rest.len() && #[trigger] rest[i].0@ == module;
            assert(entries[i].0@ == module);
        }
        if exists|i: int| 0 <= i < entries.len() && #[trigger] entries[i].0@ == module {
            let i = choose|i: int| 0 <= i < entries.len() && #[trigger] entries[i].0@ == module;
            if i < entries.len() - 1 {
                assert(rest[i].0@ == module);
            }
        }
    }
}

proof fn lemma_contents_of_update(entries: Seq<(Module, Arc<Vec<u8>>)>, i: int, entry: (Module, Arc<Vec<u8>>))
    requires
        has_unique_modules(entries),
        0 <= i < entries.len(),
        entry.0@ == entries[i].0@,
    ensures
        has_unique_modules(entries.update(i, entry)),
        contents_of(entries.update(i, entry)) == contents_of(entries).insert(entry.0@, (*entry.1)@),
{
    let updated = entries.update(i, entry);
    assert forall|module: ModuleView| #[trigger] contents_of(updated).contains_key(module)
        == contents_of(entries).insert(entry.0@, (*entry.1)@).contains_key(module) by {
        lemma_contents_of_keys(updated, module);
        lemma_contents_of_keys(entries, module);
        if exists|j: int| 0 <= j < entries.len() && #[trigger] entries[j].0@ == module {
            let j = choose|j: int| 0 <= j < entries.len() && #[trigger] entries[j].0@ == module;
            assert(updated[j].0@ == module);
        }
        if exists|j: int| 0 <= j < updated.len() && #[trigger] updated[j].0@ == module {
            let j = choose|j: int| 0 <= j < updated.len() && #[trigger] updated[j].0@ == module;
            assert(entries[j].0@ == module);
        }
    }
    assert forall|module: ModuleView| #[trigger] contents_of(updated).contains_key(module)
        implies contents_of(updated)[module] == contents_of(entries).insert(
        entry.0@,
        (*entry.1)@,
    )[module] by {
        lemma_contents_of_keys(updated, module);
        let j = choose|j: int| 0 <= j < updated.len() && #[trigger] updated[j].0@ == module;
        lemma_contents_of_index(updated, j);
        if j != i {
            lemma_contents_of_index(entries, j);
        }
    }
    assert(contents_of(updated) =~= contents_of(entries).insert(entry.0@, (*entry.1)@));
}

proof fn lemma_contents_of_remove(entries: Seq<(Module, Arc<Vec<u8>>)>, i: int)
    requires
        has_unique_modules(entries),
        0 <= i < entries.len(),
    ensures
        has_unique_modules(entries.remove(i)),
        contents_of(entries.remove(i)) == contents_of(entries).remove(entries[i].0@),
{
    let removed = entries.remove(i);
    let module = entries[i].0@;
    assert forall|j: int, k: int| 0 <= j < k < removed.len() implies #[trigger] removed[j].0@
        != #[trigger] removed[k].0@ by {
        let j2 = if j < i {
            j
        } else {
            j + 1
        };
        let k2 = if k < i {
            k
        } else {
            k + 1
        };
        assert(removed[j] == entries[j2]);
        assert(removed[k] == entries[k2]);
    }
    assert forall|other: ModuleView| #[trigger] contents_of(removed).contains_key(other)
        == contents_of(entries).remove(module).contains_key(other) by {
        lemma_contents_of_keys(removed, other);
        lemma_contents_of_keys(entries, other);
        if exists|j: int| 0 <= j < entries.len() && #[trigger] entries[j].0@ == other {
            let j = choose|j: int| 0 <= j < entries.len() && #[trigger] entries[j].0@ == other;
            if j < i {
                assert(removed[j].0@ == other);
            } else if j > i {
                assert(removed[j - 1].0@ == other);
            }
        }
        if exists|j: int| 0 <= j < removed.len() && #[trigger] removed[j].0@ == other {
            let j = choose|j: int| 0 <= j < removed.len() && #[trigger] removed[j].0@ == other;
            if j < i {
                assert(entries[j].0@ == other);
            } else {
                assert(entries[j + 1].0@ == other);
            }
        }
    }
    assert forall|other: ModuleView| #[trigger] contents_of(removed).contains_key(other)
        implies contents_of(removed)[other] == contents_of(entries).remove(module)[other] by {
        lemma_contents_of_keys(removed, other);
        let j = choose|j: int| 0 <= j < removed.len() && #[trigger] removed[j].0@ == other;
        lemma_contents_of_index(removed, j);
        if j < i {
            lemma_contents_of_index(entries, j);
        } else {
            assert(removed[j] == entries[j + 1]);
            lemma_contents_of_index(entries, j + 1);
        }
    }
    assert(contents_of(removed) =~= contents_of(entries).remove(module));
}

impl InMemoryModuleProvider {
    /// The modules that this provider has, with their contents.
    pub closed spec fn contents(&self) -> Map<ModuleView, Seq<u8>> {
        contents_of(self.modules@)
    }

    #[verifier::type_invariant]
    closed spec fn entries_are_unique(&self) -> bool {
        has_unique_modules(self.modules@)
    }

    /// A provider without modules.
    pub fn new() -> (result: Self)
        ensures
            result.contents() == Map::<ModuleView, Seq<u8>>::empty(),
    {
        InMemoryModuleProvider { modules: Vec::new() }
    }

    /// Where the module stands among the entries, if it is there.
    fn position(&self, module: &Module) -> (result: Option<usize>)
        ensures
            match result {
                Some(i) => i < self.modules.len() && self.modules@[i as int].0@ == module@,
                None => !self.contents().contains_key(module@),
            },
    {
        proof {
            use_type_invariant(self);
        }
        let mut i: usize = 0;
        while i < self.modules.len()
            invariant
                i <= self.modules.len(),
                forall|j: int| 0 <= j < i ==> #[trigger] self.modules@[j].0@ != module@,
            decreases self.modules.len() - i,
        {
            if self.modules[i].0.equals(module) {
                return Some(i);
            }
            i = i + 1;
        }
        proof {
            lemma_contents_of_keys(self.modules@, module@);
        }
        None
    }

    /// Sets the content of a module.
    pub fn add(&mut self, module: &Module, content: Vec<u8>)
        ensures
            final(self).contents() == old(self).contents().insert(module@, content@),
    {
        proof {
            use_type_invariant(&*self);
        }
        let entry = (module.clone(), Arc::new(content));
        let position = self.position(module);
        let mut modules: Vec<(Module, Arc<Vec<u8>>)> = Vec::new();
        std::mem::swap(&mut modules, &mut self.modules);
        match position {
            Some(i) => {
                proof {
                    lemma_contents_of_update(modules@, i as int, entry);
                }
                modules.set(i, entry);
            },
            None => {
                proof {
                    assert forall|j: int| 0 <= j < modules@.len() implies #[trigger] modules@[j].0@
                        != module@ by {
                        lemma_contents_of_keys(modules@, module@);
                    }
                }
                let ghost before = modules@;
                modules.push(entry);
                assert(modules@.drop_last() == before);
            },
        }
        self.modules = modules;
    }

    /// Sets the content of a module to the bytes of a text.
    pub fn add_str(&mut self, module: &Module, content: &str)
        ensures
            final(self).contents() == old(self).contents().insert(module@, content.spec_bytes()),
    {
        let bytes = content.as_bytes_vec();
        self.add(module, bytes);
    }

    /// Forgets the content of a module.
    pub fn remove(&mut self, module: &Module)
        ensures
            final(self).contents() == old(self).contents().remove(module@),
    {
        proof {
            use_type_invariant(&*self);
        }
        match self.position(module) {
            Some(i) => {
                let mut modules: Vec<(Module, Arc<Vec<u8>>)> = Vec::new();
                std::mem::swap(&mut modules, &mut self.modules);
                proof {
                    lemma_contents_of_remove(modules@, i as int);
                }
                modules.remove(i);
                self.modules = modules;
            },
            None => {
                assert(self.contents() =~= self.contents().remove(module@));
            },
        }
    }

    /// The modules that this provider has.
    pub fn get_all_modules(&self) -> (result: Vec<Module>)
        ensures
            forall|i: int|
                0 <= i < result.len() ==> self.contents().contains_key(#[trigger] result@[i]@),
            forall|module: ModuleView|
                self.contents().contains_key(module) ==> exists|i: int|
                    0 <= i < result.len() && #[trigger] result@[i]@ == module,
            forall|i: int, j: int| 0 <= i < j < result.len() ==> #[trigger] result@[i]@ != #[trigger] result@[j]@,
    {
        proof {
            use_type_invariant(self);
        }
        let mut result: Vec<Module> = Vec::new();
        let mut i: usize = 0;
        while i < self.modules.len()
            invariant
                i <= self.modules.len(),
                has_unique_modules(self.modules@),
                result.len() == i,
                forall|j: int| 0 <= j < i ==> #[trigger] result@[j]@ == self.modules@[j].0@,
            decreases self.modules.len() - i,
        {
            result.push(self.modules[i].0.clone());
            i = i + 1;
        }
        proof {
            assert forall|j: int| 0 <= j < result.len() implies self.contents().contains_key(
                #[trigger] result@[j]@,
            ) by {
                lemma_contents_of_index(self.modules@, j);
            }
            assert forall|module: ModuleView| self.contents().contains_key(module) implies exists|
                j: int,
            | 0 <= j < result.len() && #[trigger] result@[j]@ == module by {
                lemma_contents_of_keys(self.modules@, module);
                let j = choose|j: int| 0 <= j < self.modules@.len() && #[trigger] self.modules@[j].0@
                    == module;
                assert(result@[j]@ == module);
            }
            assert forall|j: int, k: int| 0 <= j < k < result.len() implies #[trigger] result@[j]@
                != #[trigger] result@[k]@ by {
                assert(self.modules@[j].0@ != self.modules@[k].0@);
            }
        }
        result
    }

    /// The content of a module, if this provider has it.
    pub fn content(&self, module: &Module) -> (result: Option<Arc<Vec<u8>>>)
        ensures
            match result {
                Some(content) => self.contents().contains_key(module@) && (*content)@
                    == self.contents()[module@],
                None => !self.contents().contains_key(module@),
            },
    {
        proof {
            use_type_invariant(self);
        }
        match self.position(module) {
            Some(i) => {
                proof {
                    lemma_contents_of_index(self.modules@, i as int);
                }
                Some(share_content(&self.modules[i].1))
            },
            None => None,
        }
    }
}

impl ModuleProvider for InMemoryModuleProvider {
    /// It gives the content that was last set for the module, and nothing
    /// for a module without one.
    open spec fn gives(&self, module: ModuleView, content: Option<Seq<u8>>) -> bool {
        content == (if self.contents().contains_key(module) {
            Some(self.contents()[module])
        } else {
            None
        })
    }

    fn get_content(&self, module: &Module) -> (result: Option<Arc<Vec<u8>>>) {
        self.content(module)
    }
}

/// Asks one provider first and another one for what the first does not have.
pub struct OverlayModuleProvider<O: ModuleProvider, F: ModuleProvider> {
    pub overlay: O,
    pub fallback: F,
}

impl<O: ModuleProvider, F: ModuleProvider> OverlayModuleProvider<O, F> {
    pub fn new(overlay: O, fallback: F) -> (result: Self)
        ensures
            result.overlay == overlay,
            result.fallback == fallback,
    {
        OverlayModuleProvider { overlay, fallback }
    }
}

impl<O: ModuleProvider, F: ModuleProvider> ModuleProvider for OverlayModuleProvider<O, F> {
    /// It gives what the overlay gives where that is some content, and
    /// otherwise what the fallback gives.
    open spec fn gives(&self, module: ModuleView, content: Option<Seq<u8>>) -> bool {
        ||| (content is Some && self.overlay.gives(module, content))
        ||| (self.overlay.gives(module, None) && self.fallback.gives(module, content))
    }

    fn get_content(&self, module: &Module) -> (result: Option<Arc<Vec<u8>>>) {
        match self.overlay.get_content(module) {
            Some(content) => Some(content),
            None => self.fallback.get_content(module),
        }
    }
}

/// Reading a module after its content is set gives that content, and setting
/// one module's content leaves the others as they are.
pub proof fn lemma_read_after_add(
    contents: Map<ModuleView, Seq<u8>>,
    module: ModuleView,
    content: Seq<u8>,
    other: ModuleView,
)
    ensures
        contents.insert(module, content).contains_key(module),
        contents.insert(module, content)[module] == content,
        other != module ==> (contents.insert(module, content).contains_key(other)
            == contents.contains_key(other)),
        other != module && contents.contains_key(other) ==> contents.insert(module, content)[other]
            == contents[other],
{
}

/// Reading a module after its content is forgotten gives nothing, and
/// forgetting one module leaves the others as they are.
pub proof fn lemma_read_after_remove(
    contents: Map<ModuleView, Seq<u8>>,
    module: ModuleView,
    other: ModuleView,
)
    ensures
        !contents.remove(module).contains_key(module),
        other != module ==> (contents.remove(module).contains_key(other) == contents.contains_key(
            other,
        )),
        other != module && contents.contains_key(other) ==> contents.remove(module)[other]
            == contents[other],
{
}

/// The text that an in-memory provider gives for a module is what the
/// content last set for the module gives as a string, and nothing where no
/// content is set.
pub proof fn lemma_in_memory_text(
    provider: InMemoryModuleProvider,
    module: ModuleView,
    text: Option<String>,
)
    requires
        exists|content: Option<Seq<u8>>|
            provider.gives(module, content) && #[trigger] is_content_text(content, text),
    ensures
        is_content_text(
            if provider.contents().contains_key(module) {
                Some(provider.contents()[module])
            } else {
                None
            },
            text,
        ),
{
}

/// Reads bytes as UTF-8 text.
///
/// Calls `String::from_utf8`, which (as its documentation says) gives the
/// text that the bytes encode if they are valid UTF-8, and an error otherwise.
#[verifier::external_body]
fn text_from_utf8(bytes: Vec<u8>) -> (result: Option<String>)
    ensures
        match result {
            Some(text) => valid_utf8(bytes@) && text@ == decode_utf8(bytes@),
            None => !valid_utf8(bytes@),
        },
{
    String::from_utf8(bytes).ok()
}

/// The text of a module's content, if there is content and it is UTF-8.
pub fn content_as_string(content: Option<Arc<Vec<u8>>>) -> (result: Option<String>)
    ensures
        is_content_text(content_view(content), result),
        match content {
            None => result is None,
            Some(bytes) => match result {
                Some(text) => valid_utf8((*bytes)@) && text@ == decode_utf8((*bytes)@),
                None => !valid_utf8((*bytes)@),
            },
        },
{
    match content {
        None => None,
        Some(bytes) => {
            let mut copy: Vec<u8> = Vec::new();
            let mut i: usize = 0;
            while i < bytes.len()
                invariant
                    i <= bytes.len(),
                    copy@ == (*bytes)@.take(i as int),
                decreases bytes.len() - i,
            {
                copy.push(bytes[i]);
                i = i + 1;
                assert((*bytes)@.take(i as int) == (*bytes)@.take(i - 1).push((*bytes)@[i - 1]));
            }
            assert((*bytes)@.take(bytes.len() as int) == (*bytes)@);
            text_from_utf8(copy)
        },
    }
}

/// The text of a module as a provider gives it, if it has the module and its
/// content is UTF-8.
pub fn get_module_content_as_string<P: ModuleProvider>(provider: &P, module: &Module) -> (result:
    Option<String>)
    ensures
        exists|content: Option<Seq<u8>>|
            provider.gives(module@, content) && #[trigger] is_content_text(content, result),
{
    let content = provider.get_content(module);
    let ghost given = content_view(content);
    let result = content_as_string(content);
    assert(provider.gives(module@, given) && is_content_text(given, result));
    result
}

} // verus!
