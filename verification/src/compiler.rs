//! The [`Compiler`]: compiles rules files into a [`Scanner`].
use std::ops::Range;
use vstd::prelude::*;

use crate::declaration::{Import, RuleDeclaration, YaraFile, YaraFileComponent};
use crate::lexer::Error;
use crate::parser::{file_within, parse_str, rule_within, spec_parse_file};
use crate::variable::declaration_fits;
use crate::error::CompilationError;
use crate::module::{math_module, spec_default_module, spec_keys_unique, time_module, Module, ModuleValue};
use crate::rule::Rule;
use crate::rule_compiler::{
    spec_compile_expr, spec_declared_names, spec_rule_compiled, collect_wildcards, forbidden_prefix, spec_forbidden, spec_wildcards, compile_rule, find_name, rule_declaration_fits, spec_compile_rule_outcome, spec_find_name,
    spec_rule_compiles, Namespace,
};
use crate::scanner::Scanner;
use vstd::string::StringSliceAdditionalSpecFns;

verus! {

/// Where the object of a module available to the compiler is.
#[derive(Debug)]
pub enum ModuleLocation {
    /// The module object, not imported yet.
    Module(Module),
    /// Index of the module in the imported modules.
    ImportedIndex(usize),
}

/// A module that rules can import.
#[derive(Debug)]
pub struct AvailableModule {
    /// Name of the module.
    pub name: String,
    /// Where the module is.
    pub location: ModuleLocation,
}

/// Object used to compile rules.
#[derive(Debug)]
pub struct Compiler {
    /// List of compiled rules.
    rules: Vec<Rule>,
    /// List of compiled, global rules.
    global_rules: Vec<Rule>,
    /// Default namespace.
    default_namespace: Namespace,
    /// Other namespaces, by their names.
    namespaces: Vec<Namespace>,
    /// Modules that can be imported, added with [`Compiler::add_module`].
    available_modules: Vec<AvailableModule>,
    /// Modules imported by some namespace, passed to the scanner.
    imported_modules: Vec<Module>,
}

/// Index of the first available module named `name`.
pub open spec fn spec_find_module(modules: Seq<AvailableModule>, name: Seq<char>) -> Option<int>
    decreases modules.len(),
{
    if modules.len() == 0 {
        None
    } else if modules[0].name@ == name {
        Some(0)
    } else {
        match spec_find_module(modules.subrange(1, modules.len() as int), name) {
            Some(i) => Some(i + 1),
            None => None,
        }
    }
}

/// Index of the first available module named `name`, see
/// [`spec_find_module`].
fn find_module(modules: &Vec<AvailableModule>, name: &String) -> (r: Option<usize>)
    ensures
        match r {
            Some(i) => i < modules@.len() && spec_find_module(modules@, name@) == Some(i as int),
            None => spec_find_module(modules@, name@) is None,
        },
{
    let mut i: usize = 0;
    assert(modules@.subrange(0, modules@.len() as int) =~= modules@);
    while i < modules.len()
        invariant
            i <= modules@.len(),
            spec_find_module(modules@, name@) == match spec_find_module(
                modules@.subrange(i as int, modules@.len() as int),
                name@,
            ) {
                Some(k) => Some(k + i),
                None => None,
            },
        decreases modules@.len() - i,
    {
        let ghost rest = modules@.subrange(i as int, modules@.len() as int);
        assert(rest[0] == modules@[i as int]);
        if modules[i].name == *name {
            return Some(i);
        }
        assert(rest.subrange(1, rest.len() as int) =~= modules@.subrange(
            i + 1,
            modules@.len() as int,
        ));
        i = i + 1;
    }
    None
}

/// The names of the available modules.
pub open spec fn spec_module_names(modules: Seq<AvailableModule>) -> Seq<Seq<char>> {
    Seq::new(modules.len(), |i: int| modules[i].name@)
}

/// The namespace's module imports once `name` is imported as the module of
/// index `index`: an earlier import of the name is replaced, otherwise the
/// import is added.
pub open spec fn spec_import(imports: Seq<(String, usize)>, name: String, index: usize) -> Seq<
    (String, usize),
> {
    match spec_find_name(imports, name@) {
        Some(k) => imports.update(k, (name, index)),
        None => imports.push((name, index)),
    }
}

/// The index a module gets when it is imported: its index if it already was,
/// the number of imported modules otherwise.
pub open spec fn spec_import_index(location: ModuleLocation, imported_len: nat) -> usize {
    match location {
        ModuleLocation::ImportedIndex(i) => i,
        ModuleLocation::Module(_) => imported_len as usize,
    }
}

/// The abstract state of a [`Compiler`].
pub struct CompilerView {
    /// The compiled rules, global rules aside.
    pub rules: Seq<Rule>,
    /// The compiled global rules.
    pub global_rules: Seq<Rule>,
    /// The default namespace.
    pub default_namespace: Namespace,
    /// The named namespaces.
    pub namespaces: Seq<Namespace>,
    /// The modules that can be imported.
    pub available_modules: Seq<AvailableModule>,
    /// The modules imported by some namespace.
    pub imported_modules: Seq<Module>,
}

/// What adding a component to a namespace reads and changes: the compiled
/// rules, the modules, and the namespace.
pub struct CompileState {
    pub rules: Seq<Rule>,
    pub global_rules: Seq<Rule>,
    pub available_modules: Seq<AvailableModule>,
    pub imported_modules: Seq<Module>,
    pub ns: Namespace,
}

/// The state that adding a component to `ns` reads and changes.
pub open spec fn state_of(c: CompilerView, ns: Namespace) -> CompileState {
    CompileState {
        rules: c.rules,
        global_rules: c.global_rules,
        available_modules: c.available_modules,
        imported_modules: c.imported_modules,
        ns,
    }
}

/// The import of `import` from the state `a` gives `r` and the state `b`:
/// an unknown module is an error, and changes nothing; otherwise the module
/// object moves into the imported modules the first time it is imported,
/// and the namespace records the module under its name.
pub open spec fn spec_import_step(
    a: CompileState,
    import: Import,
    r: Result<(), CompilationError>,
    b: CompileState,
) -> bool {
    &&& b.rules == a.rules
    &&& b.global_rules == a.global_rules
    &&& match spec_find_module(a.available_modules, import.name@) {
        None => {
            &&& r == Err::<(), CompilationError>(
                CompilationError::UnknownImport { name: import.name, span: import.span },
            )
            &&& b == a
        },
        Some(k) => {
            let entry = a.available_modules[k];
            let index = spec_import_index(entry.location, a.imported_modules.len());
            &&& r is Ok
            &&& b.ns.name == a.ns.name
            &&& b.ns.rules_indexes == a.ns.rules_indexes
            &&& b.ns.imported_modules@ == spec_import(a.ns.imported_modules@, import.name, index)
            &&& b.available_modules == a.available_modules.update(
                k,
                AvailableModule { name: entry.name, location: ModuleLocation::ImportedIndex(index) },
            )
            &&& b.imported_modules == match entry.location {
                ModuleLocation::Module(m) => a.imported_modules.push(m),
                ModuleLocation::ImportedIndex(_) => a.imported_modules,
            }
        },
    }
}

/// The addition of the rule `decl` from the state `a` gives `r` and the
/// state `b`: a rule whose name starts with the prefix of a rule set used
/// before in the namespace is refused first; then the rule is compiled, then
/// its name must not be taken in the namespace, and the prefixes of the rule
/// sets of its condition are recorded. A global rule goes to the global rules, and is recorded
/// in the namespace without index; another rule goes to the rules, and is
/// recorded with its index. On an error, nothing changes.
pub open spec fn spec_rule_step(
    a: CompileState,
    decl: RuleDeclaration,
    r: Result<(), CompilationError>,
    b: CompileState,
) -> bool {
    &&& b.available_modules == a.available_modules
    &&& b.imported_modules == a.imported_modules
    &&& if spec_forbidden(a.ns.forbidden_rule_prefixes@, decl.name@) is Some {
        let k = spec_forbidden(a.ns.forbidden_rule_prefixes@, decl.name@)->Some_0;
        &&& r matches Err(CompilationError::MatchOnWildcardRuleSet { rule_name, name_span, rule_set })
            && rule_name == decl.name && name_span == decl.name_span && rule_set@
            == a.ns.forbidden_rule_prefixes@[k]@ + "*"@
        &&& b == a
    } else if !spec_rule_compiles(decl, a.ns) {
        &&& r matches Err(e) && spec_compile_rule_outcome(
            decl,
            a.ns,
            Err::<Rule, CompilationError>(e),
        )
        &&& b == a
    } else if spec_find_name(a.ns.rules_indexes@, decl.name@) is Some {
        &&& r == Err::<(), CompilationError>(
            CompilationError::DuplicatedRuleName { name: decl.name, span: decl.name_span },
        )
        &&& b == a
    } else if decl.is_global {
        &&& r is Ok
        &&& b.rules == a.rules
        &&& b.global_rules.len() == a.global_rules.len() + 1
        &&& b.global_rules.drop_last() == a.global_rules
        &&& spec_compile_rule_outcome(
            decl,
            a.ns,
            Ok::<Rule, CompilationError>(b.global_rules.last()),
        )
        &&& b.ns.name == a.ns.name
        &&& b.ns.imported_modules == a.ns.imported_modules
        &&& b.ns.rules_indexes@ == a.ns.rules_indexes@.push((decl.name, None))
        &&& b.ns.forbidden_rule_prefixes@ == a.ns.forbidden_rule_prefixes@ + spec_wildcards(
            decl.condition,
        )
    } else {
        &&& r is Ok
        &&& b.global_rules == a.global_rules
        &&& b.rules.len() == a.rules.len() + 1
        &&& b.rules.drop_last() == a.rules
        &&& spec_compile_rule_outcome(decl, a.ns, Ok::<Rule, CompilationError>(b.rules.last()))
        &&& b.ns.name == a.ns.name
        &&& b.ns.imported_modules == a.ns.imported_modules
        &&& b.ns.rules_indexes@ == a.ns.rules_indexes@.push(
            (decl.name, Some(a.rules.len() as usize)),
        )
        &&& b.ns.forbidden_rule_prefixes@ == a.ns.forbidden_rule_prefixes@ + spec_wildcards(
            decl.condition,
        )
    }
}

/// The addition of the component `c` from the state `a` gives `r` and the
/// state `b`.
pub open spec fn spec_component_step(
    a: CompileState,
    c: YaraFileComponent,
    r: Result<(), CompilationError>,
    b: CompileState,
) -> bool {
    match c {
        YaraFileComponent::Import(import) => spec_import_step(a, import, r, b),
        YaraFileComponent::Rule(decl) => spec_rule_step(a, *decl, r, b),
    }
}

/// The states `states` are those that adding the components `cs` in order
/// goes through, from the first state on, and `r` is the outcome: every
/// component is added, or the first that fails gives its error, and the
/// components after it are not added.
pub open spec fn spec_components_trace(
    states: Seq<CompileState>,
    cs: Seq<YaraFileComponent>,
    r: Result<(), CompilationError>,
) -> bool {
    &&& 1 <= states.len() <= cs.len() + 1
    &&& forall|i: int|
        #![trigger states[i + 1]]
        0 <= i < states.len() - 2 ==> spec_component_step(
            states[i],
            cs[i],
            Ok(()),
            states[i + 1],
        )
    &&& match r {
        Ok(()) => {
            &&& states.len() == cs.len() + 1
            &&& states.len() >= 2 ==> spec_component_step(
                states[states.len() - 2],
                cs[states.len() - 2],
                Ok(()),
                states.last(),
            )
        },
        Err(e) => {
            &&& states.len() >= 2
            &&& spec_component_step(
                states[states.len() - 2],
                cs[states.len() - 2],
                Err(e),
                states.last(),
            )
        },
    }
}

/// Index of the first named namespace called `name`.
pub open spec fn spec_namespace_index(namespaces: Seq<Namespace>, name: Seq<char>) -> Option<int>
    decreases namespaces.len(),
{
    if namespaces.len() == 0 {
        None
    } else if namespaces.last().name matches Some(n) && n@ == name && spec_namespace_index(
        namespaces.drop_last(),
        name,
    ) is None {
        Some(namespaces.len() - 1)
    } else {
        spec_namespace_index(namespaces.drop_last(), name)
    }
}

/// The namespace that rules added to `namespace` go to: the default one for
/// `None`; the existing one of that name, or else a new, empty one.
pub open spec fn spec_starting_namespace(
    c: CompilerView,
    namespace: Option<String>,
    ns: Namespace,
) -> bool {
    match namespace {
        None => ns == c.default_namespace,
        Some(name) => match spec_namespace_index(c.namespaces, name@) {
            Some(k) => ns == c.namespaces[k],
            None => {
                &&& ns.name == Some(name)
                &&& ns.rules_indexes@.len() == 0
                &&& ns.imported_modules@.len() == 0
                &&& ns.forbidden_rule_prefixes@.len() == 0
            },
        },
    }
}

/// `b` is `a` once the namespace `namespace` is `ns`, see
/// [`spec_starting_namespace`]; a new named namespace goes after the others.
pub open spec fn spec_namespace_placed(
    a: CompilerView,
    namespace: Option<String>,
    ns: Namespace,
    b: CompilerView,
) -> bool {
    match namespace {
        None => b.default_namespace == ns && b.namespaces == a.namespaces,
        Some(name) => {
            &&& b.default_namespace == a.default_namespace
            &&& b.namespaces == match spec_namespace_index(a.namespaces, name@) {
                Some(k) => a.namespaces.update(k, ns),
                None => a.namespaces.push(ns),
            }
        },
    }
}

/// The compiler `b` is the compiler `a` once the components `cs` were added
/// to the namespace `namespace`, with outcome `r`.
pub open spec fn spec_file_added(
    a: CompilerView,
    namespace: Option<String>,
    cs: Seq<YaraFileComponent>,
    r: Result<(), CompilationError>,
    b: CompilerView,
) -> bool {
    exists|states: Seq<CompileState>|
        #![trigger spec_components_trace(states, cs, r)]
        {
            &&& spec_components_trace(states, cs, r)
            &&& spec_starting_namespace(a, namespace, states[0].ns)
            &&& states[0] == state_of(a, states[0].ns)
            &&& states.last() == state_of(b, states.last().ns)
            &&& spec_namespace_placed(a, namespace, states.last().ns, b)
        }
}

/// Whether the values of all the modules of the compiler, available or
/// imported, have unique keys, see [`spec_keys_unique`].
pub open spec fn spec_modules_keys_unique(c: CompilerView) -> bool {
    &&& forall|i: int|
        #![trigger c.available_modules[i]]
        0 <= i < c.available_modules.len() ==> (c.available_modules[i].location matches ModuleLocation::Module(
            m,
        ) ==> spec_keys_unique(m.value))
    &&& forall|i: int|
        #![trigger c.imported_modules[i]]
        0 <= i < c.imported_modules.len() ==> spec_keys_unique(c.imported_modules[i].value)
}

/// Error while adding rules.
#[derive(Debug)]
pub enum AddRuleError {
    /// Error while parsing a rule.
    ParseError(Error),
    /// Error while compiling a rule.
    CompilationError(CompilationError),
}

/// The outcome of adding the rules of `s` into the namespace `namespace`
/// from the compiler `a`: `r`, and the compiler `b`. A parse error changes
/// nothing.
pub open spec fn spec_rules_added(
    a: CompilerView,
    s: Seq<u8>,
    namespace: Option<String>,
    r: Result<(), AddRuleError>,
    b: CompilerView,
) -> bool {
    match spec_parse_file(s) {
        Err(e) => r == Err::<(), AddRuleError>(AddRuleError::ParseError(e)) && b == a,
        Ok(cs) => exists|f: YaraFile, res: Result<(), CompilationError>|
            #![trigger f@, spec_file_added(a, namespace, f.components@, res, b)]
            {
                &&& f@ == cs
                &&& spec_file_added(a, namespace, f.components@, res, b)
                &&& r == match res {
                    Ok(()) => Ok::<(), AddRuleError>(()),
                    Err(e) => Err(AddRuleError::CompilationError(e)),
                }
            },
    }
}

/// Whether every rule of the components can be compiled within the machine
/// limits.
pub open spec fn components_fit(cs: Seq<YaraFileComponent>) -> bool {
    forall|k: int|
        #![trigger cs[k]]
        0 <= k < cs.len() ==> (cs[k] matches YaraFileComponent::Rule(d) ==> rule_declaration_fits(
            *d,
        ))
}

/// Index of the first named namespace called `name`, see
/// [`spec_namespace_index`].
fn namespace_index(namespaces: &Vec<Namespace>, name: &String) -> (r: Option<usize>)
    ensures
        match r {
            Some(k) => spec_namespace_index(namespaces@, name@) == Some(k as int) && k
                < namespaces@.len(),
            None => spec_namespace_index(namespaces@, name@) is None,
        },
{
    let mut i: usize = 0;
    while i < namespaces.len()
        invariant
            i <= namespaces@.len(),
            spec_namespace_index(namespaces@, name@) == match spec_namespace_index(
                namespaces@.subrange(0, i as int),
                name@,
            ) {
                Some(k) => Some(k),
                None => spec_namespace_index(namespaces@, name@),
            },
            spec_namespace_index(namespaces@.subrange(0, i as int), name@) is None,
            forall|k: int|
                #![trigger namespaces@[k]]
                0 <= k < i ==> !(namespaces@[k].name matches Some(n) && n@ == name@),
        decreases namespaces@.len() - i,
    {
        let found = match &namespaces[i].name {
            Some(n) => *n == *name,
            None => false,
        };
        if found {
            proof {
                lemma_namespace_index_first(namespaces@, name@, i as int);
            }
            return Some(i);
        }
        proof {
            let p = namespaces@.subrange(0, i + 1);
            assert(p.drop_last() =~= namespaces@.subrange(0, i as int));
        }
        i = i + 1;
    }
    proof {
        lemma_namespace_index_none(namespaces@, name@);
    }
    None
}

/// Lemma: the first namespace called `name` is found at `i`.
proof fn lemma_namespace_index_first(namespaces: Seq<Namespace>, name: Seq<char>, i: int)
    requires
        0 <= i < namespaces.len(),
        namespaces[i].name matches Some(n) && n@ == name,
        forall|k: int|
            #![trigger namespaces[k]]
            0 <= k < i ==> !(namespaces[k].name matches Some(n) && n@ == name),
    ensures
        spec_namespace_index(namespaces, name) == Some(i),
    decreases namespaces.len(),
{
    if namespaces.len() - 1 == i {
        lemma_namespace_index_none(namespaces.drop_last(), name);
    } else {
        lemma_namespace_index_first(namespaces.drop_last(), name, i);
    }
}

/// Lemma: no namespace is found where none is called `name`.
proof fn lemma_namespace_index_none(namespaces: Seq<Namespace>, name: Seq<char>)
    requires
        forall|k: int|
            #![trigger namespaces[k]]
            0 <= k < namespaces.len() ==> !(namespaces[k].name matches Some(n) && n@ == name),
    ensures
        spec_namespace_index(namespaces, name) is None,
    decreases namespaces.len(),
{
    if namespaces.len() > 0 {
        lemma_namespace_index_none(namespaces.drop_last(), name);
    }
}

impl View for Compiler {
    type V = CompilerView;

    closed spec fn view(&self) -> CompilerView {
        CompilerView {
            rules: self.rules@,
            global_rules: self.global_rules@,
            default_namespace: self.default_namespace,
            namespaces: self.namespaces@,
            available_modules: self.available_modules@,
            imported_modules: self.imported_modules@,
        }
    }
}

impl Compiler {
    /// Whether the rules are compiled with their literal passes.
    pub closed spec fn wf(&self) -> bool {
        &&& forall|i: int| #![trigger self.rules@[i]] 0 <= i < self.rules@.len() ==> self.rules@[i].wf()
        &&& forall|i: int|
            #![trigger self.global_rules@[i]]
            0 <= i < self.global_rules@.len() ==> self.global_rules@[i].wf()
        &&& spec_modules_keys_unique(self@)
    }

    /// Create a new object to compile rules.
    ///
    /// The modules `time` and `math` are available by default, in this
    /// order (see [`crate::module::time_module`] and
    /// [`crate::module::math_module`]); other modules are added with
    /// [`Compiler::add_module`].
    pub fn new() -> (r: Self)
        ensures
            r@.rules.len() == 0,
            r@.global_rules.len() == 0,
            r@.default_namespace.name is None,
            r@.default_namespace.rules_indexes@.len() == 0,
            r@.default_namespace.imported_modules@.len() == 0,
            r@.namespaces.len() == 0,
            r@.available_modules.len() == 2,
            r@.available_modules[0].name@ == "time"@,
            r@.available_modules[0].location matches ModuleLocation::Module(m) && spec_default_module(
                m,
                "time"@,
            ),
            r@.available_modules[1].name@ == "math"@,
            r@.available_modules[1].location matches ModuleLocation::Module(m) && spec_default_module(
                m,
                "math"@,
            ),
            r@.imported_modules.len() == 0,
            spec_all_names_unique(r@),
            spec_indexes_valid(r@),
            r.wf(),
    {
        let mut available_modules: Vec<AvailableModule> = Vec::new();
        let time = time_module();
        available_modules.push(
            AvailableModule { name: "time".to_owned(), location: ModuleLocation::Module(time) },
        );
        let math = math_module();
        available_modules.push(
            AvailableModule { name: "math".to_owned(), location: ModuleLocation::Module(math) },
        );
        Compiler {
            rules: Vec::new(),
            global_rules: Vec::new(),
            default_namespace: Namespace::new(None),
            namespaces: Vec::new(),
            available_modules,
            imported_modules: Vec::new(),
        }
    }

    /// Add a module.
    ///
    /// Returns false if a module with the same name is already registered,
    /// and the module was not added.
    pub fn add_module(&mut self, module: Module) -> (r: bool)
        requires
            spec_keys_unique(module.value),
        ensures
            r == (spec_find_module(old(self)@.available_modules, module.name@) is None),
            r ==> final(self)@.available_modules == old(self)@.available_modules.push(
                AvailableModule { name: module.name, location: ModuleLocation::Module(module) },
            ),
            !r ==> final(self)@.available_modules == old(self)@.available_modules,
            final(self)@.rules == old(self)@.rules,
            final(self)@.global_rules == old(self)@.global_rules,
            final(self)@.default_namespace == old(self)@.default_namespace,
            final(self)@.namespaces == old(self)@.namespaces,
            final(self)@.imported_modules == old(self)@.imported_modules,
            old(self).wf() ==> final(self).wf(),
    {
        match find_module(&self.available_modules, &module.name) {
            Some(_) => false,
            None => {
                let name = module.name.clone();
                self.available_modules.push(
                    AvailableModule { name, location: ModuleLocation::Module(module) },
                );
                true
            },
        }
    }

    /// The names of the modules that can be imported.
    pub fn available_modules(&self) -> (r: Vec<&str>)
        ensures
            r@.len() == self@.available_modules.len(),
            forall|i: int|
                #![trigger r@[i]]
                0 <= i < r@.len() ==> r@[i]@ == self@.available_modules[i].name@,
    {
        let mut names: Vec<&str> = Vec::new();
        let mut i: usize = 0;
        while i < self.available_modules.len()
            invariant
                i <= self.available_modules@.len(),
                names@.len() == i,
                forall|k: int|
                    #![trigger names@[k]]
                    0 <= k < i ==> names@[k]@ == self.available_modules@[k].name@,
            decreases self.available_modules@.len() - i,
        {
            names.push(self.available_modules[i].name.as_str());
            i = i + 1;
        }
        names
    }

    /// Import the module `import` into the namespace `ns`: the module object
    /// moves into the imported modules the first time it is imported.
    fn add_import(&mut self, ns: &mut Namespace, import: Import) -> (r: Result<
        (),
        CompilationError,
    >)
        ensures
            spec_import_step(
                state_of(old(self)@, *old(ns)),
                import,
                r,
                state_of(final(self)@, *final(ns)),
            ),
            final(self)@.default_namespace == old(self)@.default_namespace,
            final(self)@.namespaces == old(self)@.namespaces,
            old(self).wf() ==> final(self).wf(),
    {
        let Import { name, span } = import;
        let k = match find_module(&self.available_modules, &name) {
            Some(k) => k,
            None => {
                return Err(CompilationError::UnknownImport { name, span });
            },
        };
        let placeholder = AvailableModule {
            name: String::new(),
            location: ModuleLocation::ImportedIndex(0),
        };
        let mut entry = placeholder;
        std::mem::swap(&mut self.available_modules[k], &mut entry);
        let AvailableModule { name: entry_name, location } = entry;
        let index = match location {
            ModuleLocation::ImportedIndex(i) => i,
            ModuleLocation::Module(m) => {
                let i = self.imported_modules.len();
                self.imported_modules.push(m);
                i
            },
        };
        self.available_modules.set(
            k,
            AvailableModule { name: entry_name, location: ModuleLocation::ImportedIndex(index) },
        );
        match find_name(&ns.imported_modules, &name) {
            Some(j) => {
                ns.imported_modules.set(j, (name, index));
            },
            None => {
                ns.imported_modules.push((name, index));
            },
        }
        proof {
            let a = state_of(old(self)@, *old(ns));
            let b = state_of(self@, *ns);
            assert(b.rules == a.rules);
            assert(b.global_rules == a.global_rules);
            assert(spec_find_module(a.available_modules, import.name@) == Some(k as int));
            assert(b.ns.name == a.ns.name);
            assert(b.ns.rules_indexes == a.ns.rules_indexes);
            assert(b.available_modules == a.available_modules.update(
                k as int,
                AvailableModule { name: a.available_modules[k as int].name, location: ModuleLocation::ImportedIndex(index) },
            ));
        }
        Ok(())
    }

    /// Compile the rule `decl` into the namespace `ns`.
    ///
    /// The rule is compiled first; then its name must not be taken in the
    /// namespace. A global rule is added to the global rules, and recorded
    /// in the namespace without index; another rule is added to the rules,
    /// and recorded with its index.
    fn add_rule(&mut self, ns: &mut Namespace, decl: RuleDeclaration) -> (r: Result<
        (),
        CompilationError,
    >)
        requires
            rule_declaration_fits(decl),
        ensures
            spec_rule_step(
                state_of(old(self)@, *old(ns)),
                decl,
                r,
                state_of(final(self)@, *final(ns)),
            ),
            final(self)@.default_namespace == old(self)@.default_namespace,
            final(self)@.namespaces == old(self)@.namespaces,
            old(self).wf() ==> final(self).wf(),
    {
        let name = decl.name.clone();
        let name_span = Range { start: decl.name_span.start, end: decl.name_span.end };
        let is_global = decl.is_global;
        let ghost a = state_of(self@, *ns);
        if let Some(k) = forbidden_prefix(&ns.forbidden_rule_prefixes, &name) {
            let mut rule_set = ns.forbidden_rule_prefixes[k].clone();
            rule_set.append("*");
            return Err(CompilationError::MatchOnWildcardRuleSet { rule_name: name, name_span, rule_set });
        }
        let mut prefixes: Vec<String> = Vec::new();
        collect_wildcards(&decl.condition, &mut prefixes);
        assert(prefixes@ =~= spec_wildcards(decl.condition));
        let rule = match compile_rule(decl, ns) {
            Ok(rule) => rule,
            Err(e) => {
                assert(state_of(self@, *ns) == a);
                return Err(e);
            },
        };
        if find_name(&ns.rules_indexes, &name).is_some() {
            assert(state_of(self@, *ns) == a);
            return Err(CompilationError::DuplicatedRuleName { name, span: name_span });
        }
        if is_global {
            ns.rules_indexes.push((name, None));
            self.global_rules.push(rule);
            assert(self.global_rules@.drop_last() =~= a.global_rules);
        } else {
            ns.rules_indexes.push((name, Some(self.rules.len())));
            self.rules.push(rule);
            assert(self.rules@.drop_last() =~= a.rules);
        }
        ns.forbidden_rule_prefixes.append(&mut prefixes);
        Ok(())
    }

    /// Put the namespace `ns` back: at index `existing` among the named
    /// namespaces, or as the default one, or after the named ones.
    fn put_namespace(&mut self, ns: Namespace, existing: Option<usize>, is_default: bool)
        requires
            existing matches Some(k) ==> k < old(self)@.namespaces.len(),
        ensures
            final(self)@.rules == old(self)@.rules,
            final(self)@.global_rules == old(self)@.global_rules,
            final(self)@.available_modules == old(self)@.available_modules,
            final(self)@.imported_modules == old(self)@.imported_modules,
            old(self).wf() ==> final(self).wf(),
            match existing {
                Some(k) => final(self)@.namespaces == old(self)@.namespaces.update(k as int, ns)
                    && final(self)@.default_namespace == old(self)@.default_namespace,
                None => if is_default {
                    final(self)@.namespaces == old(self)@.namespaces
                        && final(self)@.default_namespace == ns
                } else {
                    final(self)@.namespaces == old(self)@.namespaces.push(ns)
                        && final(self)@.default_namespace == old(self)@.default_namespace
                },
            },
    {
        match existing {
            Some(k) => {
                self.namespaces.set(k, ns);
            },
            None => if is_default {
                self.default_namespace = ns;
            } else {
                self.namespaces.push(ns);
            },
        }
    }

    /// Add the components of a parsed file to the namespace `namespace`
    /// (the default one for `None`), in order, up to the first that fails:
    /// see [`spec_file_added`]. The components added before a failure stay.
    fn add_file(&mut self, file: YaraFile, namespace: Option<String>) -> (r: Result<
        (),
        CompilationError,
    >)
        requires
            components_fit(file.components@),
        ensures
            spec_file_added(old(self)@, namespace, file.components@, r, final(self)@),
            old(self).wf() ==> final(self).wf(),
    {
        let ghost start = self@;
        let ghost cs = file.components@;
        let YaraFile { components } = file;
        let mut components = components;
        let mut ns = Namespace::new(None);
        let mut existing: Option<usize> = None;
        let is_default = match &namespace {
            None => true,
            Some(_) => false,
        };
        match &namespace {
            None => {
                std::mem::swap(&mut self.default_namespace, &mut ns);
            },
            Some(name) => match namespace_index(&self.namespaces, name) {
                Some(k) => {
                    std::mem::swap(&mut self.namespaces[k], &mut ns);
                    existing = Some(k);
                },
                None => {
                    ns = Namespace::new(Some(name.clone()));
                },
            },
        }
        let ghost ns0 = ns;
        let ghost taken = self@;
        assert(spec_starting_namespace(start, namespace, ns0));
        assert(spec_taken(start, taken, namespace, existing, ns0)) by {
            if let Some(k) = existing {
                assert(taken.namespaces.update(k as int, ns0) =~= start.namespaces);
            }
        }
        let ghost mut states: Seq<CompileState> = seq![state_of(self@, ns)];
        let mut i: usize = 0;
        while i < components.len()
            invariant
                i <= components@.len() == cs.len(),
                start == old(self)@,
                cs == file.components@,
                components_fit(cs),
                forall|j: int| #![trigger components@[j]] i <= j < cs.len() ==> components@[j] == cs[j],
                states.len() == i + 1,
                states[0] == state_of(start, ns0),
                states.last() == state_of(self@, ns),
                forall|j: int|
                    #![trigger states[j + 1]]
                    0 <= j < i ==> spec_component_step(states[j], cs[j], Ok(()), states[j + 1]),
                self@.default_namespace == taken.default_namespace,
                self@.namespaces == taken.namespaces,
                spec_taken(start, taken, namespace, existing, ns0),
                spec_starting_namespace(start, namespace, ns0),
                is_default == namespace is None,
                old(self).wf() ==> self.wf(),
            decreases cs.len() - i,
        {
            let mut c = YaraFileComponent::Import(
                Import { name: String::new(), span: Range { start: 0, end: 0 } },
            );
            std::mem::swap(&mut components[i], &mut c);
            assert(c == cs[i as int]);
            assert(cs[i as int] matches YaraFileComponent::Rule(d) ==> rule_declaration_fits(*d));
            let step = match c {
                YaraFileComponent::Import(import) => self.add_import(&mut ns, import),
                YaraFileComponent::Rule(decl) => self.add_rule(&mut ns, *decl),
            };
            proof {
                states = states.push(state_of(self@, ns));
            }
            if step.is_err() {
                let ghost last_ns = ns;
                self.put_namespace(ns, existing, is_default);
                assert(spec_namespace_placed(start, namespace, last_ns, self@)) by {
                    lemma_placed(start, taken, namespace, existing, is_default, ns0, last_ns, self@);
                }
                assert(states[states.len() - 2] == states[i as int]);
                assert(spec_components_trace(states, cs, step));
                assert(states.last() == state_of(self@, states.last().ns));
                return step;
            }
            i = i + 1;
        }
        let ghost last_ns = ns;
        self.put_namespace(ns, existing, is_default);
        assert(spec_namespace_placed(start, namespace, last_ns, self@)) by {
            lemma_placed(start, taken, namespace, existing, is_default, ns0, last_ns, self@);
        }
        proof {
            if cs.len() > 0 {
                assert(states[states.len() - 2] == states[cs.len() - 1]);
                assert(states.last() == states[(cs.len() - 1) + 1]);
            }
        }
        assert(spec_components_trace(states, cs, Ok(())));
        assert(states.last() == state_of(self@, states.last().ns));
        Ok(())
    }

    /// Add rules to the scanner from a string.
    ///
    /// The default namespace will be used.
    ///
    /// # Errors
    ///
    /// If parsing of the rules fails, an error is returned.
    pub fn add_rules_str(&mut self, s: &str) -> (r: Result<(), AddRuleError>)
        requires
            16 * s.spec_bytes().len() + 16 <= usize::MAX,
        ensures
            spec_rules_added(old(self)@, s.spec_bytes(), None, r, final(self)@),
            old(self).wf() ==> final(self).wf(),
    {
        self.add_rules(s, None)
    }

    /// Add rules to the scanner from a string into a specific namespace.
    ///
    /// # Errors
    ///
    /// If parsing of the rules fails, an error is returned.
    pub fn add_rules_str_in_namespace(&mut self, s: &str, namespace: String) -> (r: Result<
        (),
        AddRuleError,
    >)
        requires
            16 * s.spec_bytes().len() + 16 <= usize::MAX,
        ensures
            spec_rules_added(old(self)@, s.spec_bytes(), Some(namespace), r, final(self)@),
            old(self).wf() ==> final(self).wf(),
    {
        self.add_rules(s, Some(namespace))
    }

    /// Parse `s`, then add its rules to the namespace `namespace`.
    fn add_rules(&mut self, s: &str, namespace: Option<String>) -> (r: Result<(), AddRuleError>)
        requires
            16 * s.spec_bytes().len() + 16 <= usize::MAX,
        ensures
            spec_rules_added(old(self)@, s.spec_bytes(), namespace, r, final(self)@),
            old(self).wf() ==> final(self).wf(),
    {
        let file = match parse_str(s) {
            Ok(f) => f,
            Err(e) => {
                return Err(AddRuleError::ParseError(e));
            },
        };
        proof {
            lemma_file_fits(file, s.spec_bytes().len() as int);
        }
        let ghost f = file;
        let ghost a = self@;
        let res = self.add_file(file, namespace);
        let r = match res {
            Ok(()) => Ok(()),
            Err(e) => Err(AddRuleError::CompilationError(e)),
        };
        assert(f@ == spec_parse_file(s.spec_bytes())->Ok_0);
        assert(spec_file_added(a, namespace, f.components@, res, self@));
        r
    }

    /// Make a scanner from the compiled rules and the imported modules.
    pub fn into_scanner(self) -> (r: Scanner)
        requires
            self.wf(),
        ensures
            r.rules_view() == self@.rules,
            r.global_rules_view() == self@.global_rules,
            r.modules_view() == self@.imported_modules,
    {
        Scanner::new(self.rules, self.global_rules, self.imported_modules)
    }
}

/// Where the namespace that a file is added to was taken from: `ns0` was
/// at index `existing` among the named namespaces of `start`, or was its
/// default namespace, or is new; `taken` is `start` without it.
pub open spec fn spec_taken(
    start: CompilerView,
    taken: CompilerView,
    namespace: Option<String>,
    existing: Option<usize>,
    ns0: Namespace,
) -> bool {
    match existing {
        Some(k) => {
            &&& namespace matches Some(name) && spec_namespace_index(start.namespaces, name@)
                == Some(k as int)
            &&& k < taken.namespaces.len()
            &&& taken.namespaces.update(k as int, ns0) == start.namespaces
            &&& taken.default_namespace == start.default_namespace
        },
        None => {
            &&& namespace matches Some(name) ==> spec_namespace_index(start.namespaces, name@)
                is None
            &&& taken.namespaces == start.namespaces
            &&& namespace is Some ==> taken.default_namespace == start.default_namespace
        },
    }
}

/// Lemma: putting the namespace back places it where it was taken from.
proof fn lemma_placed(
    start: CompilerView,
    taken: CompilerView,
    namespace: Option<String>,
    existing: Option<usize>,
    is_default: bool,
    ns0: Namespace,
    ns: Namespace,
    b: CompilerView,
)
    requires
        is_default == namespace is None,
        spec_taken(start, taken, namespace, existing, ns0),
        match existing {
            Some(k) => b.namespaces == taken.namespaces.update(k as int, ns)
                && b.default_namespace == taken.default_namespace,
            None => if is_default {
                b.namespaces == taken.namespaces && b.default_namespace == ns
            } else {
                b.namespaces == taken.namespaces.push(ns) && b.default_namespace
                    == taken.default_namespace
            },
        },
    ensures
        spec_namespace_placed(start, namespace, ns, b),
{
    if let Some(k) = existing {
        assert(b.namespaces =~= start.namespaces.update(k as int, ns));
    }
}

/// Lemma: the rules of a parsed file fit the machine limits when the input
/// is small enough.
proof fn lemma_file_fits(f: YaraFile, n: int)
    requires
        file_within(f, n),
        16 * n + 16 <= usize::MAX,
    ensures
        components_fit(f.components@),
{
    assert forall|k: int|
        #![trigger f.components@[k]]
        0 <= k < f.components@.len() implies (f.components@[k] matches YaraFileComponent::Rule(
        d,
    ) ==> rule_declaration_fits(*d)) by {
        if let YaraFileComponent::Rule(d) = f.components@[k] {
            assert forall|j: int|
                #![trigger d.variables@[j]]
                0 <= j < d.variables@.len() implies declaration_fits(d.variables@[j]) by {
                assert(rule_within(*d, n));
            }
        }
    }
}

} // verus!

verus! {

// ---------------------------------------------------------------------------
// Laws
// ---------------------------------------------------------------------------

/// Whether no two rules of a namespace share a name.
pub open spec fn spec_names_unique(entries: Seq<(String, Option<usize>)>) -> bool {
    forall|i: int, j: int|
        #![trigger entries[i], entries[j]]
        0 <= i < j < entries.len() ==> entries[i].0@ != entries[j].0@
}

/// Whether, in every namespace of the compiler, no two rules share a name.
pub open spec fn spec_all_names_unique(c: CompilerView) -> bool {
    &&& spec_names_unique(c.default_namespace.rules_indexes@)
    &&& forall|k: int|
        #![trigger c.namespaces[k]]
        0 <= k < c.namespaces.len() ==> spec_names_unique(c.namespaces[k].rules_indexes@)
}

/// Lemma: a namespace found is within the namespaces.
proof fn lemma_namespace_index_bounds(namespaces: Seq<Namespace>, name: Seq<char>)
    ensures
        spec_namespace_index(namespaces, name) matches Some(k) ==> 0 <= k < namespaces.len(),
    decreases namespaces.len(),
{
    if namespaces.len() > 0 {
        lemma_namespace_index_bounds(namespaces.drop_last(), name);
    }
}

/// Lemma: a name that is not found is the name of no entry.
proof fn lemma_find_name_none<T>(entries: Seq<(String, T)>, name: Seq<char>)
    requires
        spec_find_name(entries, name) is None,
    ensures
        forall|i: int| #![trigger entries[i]] 0 <= i < entries.len() ==> entries[i].0@ != name,
    decreases entries.len(),
{
    if entries.len() > 0 {
        let rest = entries.subrange(1, entries.len() as int);
        lemma_find_name_none(rest, name);
        assert forall|i: int| #![trigger entries[i]] 0 <= i < entries.len() implies entries[i].0@
            != name by {
            if i > 0 {
                assert(entries[i] == rest[i - 1]);
            }
        }
    }
}

/// Adding a component to a namespace keeps the names of its rules unique:
/// a rule whose name is taken is refused.
pub proof fn lemma_step_keeps_names_unique(
    a: CompileState,
    c: YaraFileComponent,
    r: Result<(), CompilationError>,
    b: CompileState,
)
    requires
        spec_component_step(a, c, r, b),
        spec_names_unique(a.ns.rules_indexes@),
    ensures
        spec_names_unique(b.ns.rules_indexes@),
{
    if let YaraFileComponent::Rule(decl) = c {
        if spec_rule_compiles(*decl, a.ns) && spec_find_name(a.ns.rules_indexes@, decl.name@) is None {
            lemma_find_name_none(a.ns.rules_indexes@, decl.name@);
            let e = b.ns.rules_indexes@;
            assert forall|i: int, j: int|
                #![trigger e[i], e[j]]
                0 <= i < j < e.len() implies e[i].0@ != e[j].0@ by {
                if j == e.len() - 1 {
                    assert(e[i] == a.ns.rules_indexes@[i]);
                } else {
                    assert(e[i] == a.ns.rules_indexes@[i]);
                    assert(e[j] == a.ns.rules_indexes@[j]);
                }
            }
        }
    }
}

/// Lemma: every state of a trace has unique rule names when the first has.
proof fn lemma_trace_names_unique(
    states: Seq<CompileState>,
    cs: Seq<YaraFileComponent>,
    r: Result<(), CompilationError>,
    n: int,
)
    requires
        spec_components_trace(states, cs, r),
        spec_names_unique(states[0].ns.rules_indexes@),
        0 <= n < states.len(),
    ensures
        spec_names_unique(states[n].ns.rules_indexes@),
    decreases n,
{
    if n > 0 {
        lemma_trace_names_unique(states, cs, r, n - 1);
        if n - 1 < states.len() - 2 {
            assert(spec_component_step(states[n - 1], cs[n - 1], Ok(()), states[(n - 1) + 1]));
            lemma_step_keeps_names_unique(states[n - 1], cs[n - 1], Ok(()), states[n]);
        } else {
            match r {
                Ok(()) => {
                    lemma_step_keeps_names_unique(states[n - 1], cs[n - 1], Ok(()), states[n]);
                },
                Err(e) => {
                    lemma_step_keeps_names_unique(states[n - 1], cs[n - 1], Err(e), states[n]);
                },
            }
        }
    }
}

/// Adding the components of a file keeps the names of the rules of every
/// namespace unique, whether it succeeds or not.
pub proof fn lemma_file_keeps_names_unique(
    a: CompilerView,
    namespace: Option<String>,
    cs: Seq<YaraFileComponent>,
    r: Result<(), CompilationError>,
    b: CompilerView,
)
    requires
        spec_file_added(a, namespace, cs, r, b),
        spec_all_names_unique(a),
    ensures
        spec_all_names_unique(b),
{
    let states = choose|states: Seq<CompileState>|
        #![trigger spec_components_trace(states, cs, r)]
        {
            &&& spec_components_trace(states, cs, r)
            &&& spec_starting_namespace(a, namespace, states[0].ns)
            &&& states[0] == state_of(a, states[0].ns)
            &&& states.last() == state_of(b, states.last().ns)
            &&& spec_namespace_placed(a, namespace, states.last().ns, b)
        };
    let last = states.last().ns;
    match namespace {
        None => {},
        Some(name) => {
            match spec_namespace_index(a.namespaces, name@) {
                Some(k) => {
                    lemma_namespace_index_bounds(a.namespaces, name@);
                    assert(spec_names_unique(a.namespaces[k].rules_indexes@));
                },
                None => {},
            }
        },
    }
    lemma_trace_names_unique(states, cs, r, states.len() - 1);
    assert(spec_names_unique(last.rules_indexes@));
    match namespace {
        None => {},
        Some(name) => {
            match spec_namespace_index(a.namespaces, name@) {
                Some(k) => {
                    lemma_namespace_index_bounds(a.namespaces, name@);
                    assert(b.namespaces == a.namespaces.update(k, last));
                    assert forall|j: int|
                        #![trigger b.namespaces[j]]
                        0 <= j < b.namespaces.len() implies spec_names_unique(
                        b.namespaces[j].rules_indexes@,
                    ) by {
                        if j != k {
                            assert(b.namespaces[j] == a.namespaces[j]);
                        }
                    }
                },
                None => {
                    assert(b.namespaces == a.namespaces.push(last));
                    assert forall|j: int|
                        #![trigger b.namespaces[j]]
                        0 <= j < b.namespaces.len() implies spec_names_unique(
                        b.namespaces[j].rules_indexes@,
                    ) by {
                        if j < a.namespaces.len() {
                            assert(b.namespaces[j] == a.namespaces[j]);
                        }
                    }
                },
            }
        },
    }
}

/// Lemma: a step keeps the rules and global rules already compiled, in
/// front.
proof fn lemma_step_keeps_rules(
    a: CompileState,
    c: YaraFileComponent,
    r: Result<(), CompilationError>,
    b: CompileState,
)
    requires
        spec_component_step(a, c, r, b),
    ensures
        a.rules.len() <= b.rules.len(),
        b.rules.subrange(0, a.rules.len() as int) == a.rules,
        a.global_rules.len() <= b.global_rules.len(),
        b.global_rules.subrange(0, a.global_rules.len() as int) == a.global_rules,
{
    assert(b.rules.subrange(0, b.rules.len() as int) =~= b.rules);
    assert(b.global_rules.subrange(0, b.global_rules.len() as int) =~= b.global_rules);
    if b.rules.len() == a.rules.len() + 1 && b.rules.drop_last() == a.rules {
        assert(b.rules.subrange(0, a.rules.len() as int) =~= b.rules.drop_last());
    }
    if b.global_rules.len() == a.global_rules.len() + 1 && b.global_rules.drop_last()
        == a.global_rules {
        assert(b.global_rules.subrange(0, a.global_rules.len() as int)
            =~= b.global_rules.drop_last());
    }
}

/// Lemma: the first state's rules stay in front in every state of a trace.
proof fn lemma_trace_keeps_rules(
    states: Seq<CompileState>,
    cs: Seq<YaraFileComponent>,
    r: Result<(), CompilationError>,
    n: int,
)
    requires
        spec_components_trace(states, cs, r),
        0 <= n < states.len(),
    ensures
        states[0].rules.len() <= states[n].rules.len(),
        states[n].rules.subrange(0, states[0].rules.len() as int) == states[0].rules,
        states[0].global_rules.len() <= states[n].global_rules.len(),
        states[n].global_rules.subrange(0, states[0].global_rules.len() as int)
            == states[0].global_rules,
    decreases n,
{
    if n == 0 {
        assert(states[0].rules.subrange(0, states[0].rules.len() as int) =~= states[0].rules);
        assert(states[0].global_rules.subrange(0, states[0].global_rules.len() as int)
            =~= states[0].global_rules);
    } else {
        lemma_trace_keeps_rules(states, cs, r, n - 1);
        if n - 1 < states.len() - 2 {
            assert(spec_component_step(states[n - 1], cs[n - 1], Ok(()), states[(n - 1) + 1]));
            lemma_step_keeps_rules(states[n - 1], cs[n - 1], Ok(()), states[n]);
        } else {
            match r {
                Ok(()) => {
                    lemma_step_keeps_rules(states[n - 1], cs[n - 1], Ok(()), states[n]);
                },
                Err(e) => {
                    lemma_step_keeps_rules(states[n - 1], cs[n - 1], Err(e), states[n]);
                },
            }
        }
        let p = states[n - 1];
        let q = states[n];
        let z = states[0];
        assert(q.rules.subrange(0, z.rules.len() as int) =~= q.rules.subrange(
            0,
            p.rules.len() as int,
        ).subrange(0, z.rules.len() as int));
        assert(q.global_rules.subrange(0, z.global_rules.len() as int)
            =~= q.global_rules.subrange(0, p.global_rules.len() as int).subrange(
            0,
            z.global_rules.len() as int,
        ));
    }
}

/// Adding the components of a file keeps the rules compiled before, in
/// front of the rules, whether it succeeds or not: the rules of the
/// components added before a failure stay too.
pub proof fn lemma_file_keeps_rules(
    a: CompilerView,
    namespace: Option<String>,
    cs: Seq<YaraFileComponent>,
    r: Result<(), CompilationError>,
    b: CompilerView,
)
    requires
        spec_file_added(a, namespace, cs, r, b),
    ensures
        a.rules.len() <= b.rules.len(),
        b.rules.subrange(0, a.rules.len() as int) == a.rules,
        a.global_rules.len() <= b.global_rules.len(),
        b.global_rules.subrange(0, a.global_rules.len() as int) == a.global_rules,
{
    let states = choose|states: Seq<CompileState>|
        #![trigger spec_components_trace(states, cs, r)]
        {
            &&& spec_components_trace(states, cs, r)
            &&& spec_starting_namespace(a, namespace, states[0].ns)
            &&& states[0] == state_of(a, states[0].ns)
            &&& states.last() == state_of(b, states.last().ns)
            &&& spec_namespace_placed(a, namespace, states.last().ns, b)
        };
    lemma_trace_keeps_rules(states, cs, r, states.len() - 1);
}

/// Adding rules from text, in the default namespace or in a named one,
/// keeps the names of the rules of every namespace unique, and keeps the
/// rules compiled before in front, whatever the outcome.
pub proof fn lemma_rules_added_keep_names_and_rules(
    a: CompilerView,
    s: Seq<u8>,
    namespace: Option<String>,
    r: Result<(), AddRuleError>,
    b: CompilerView,
)
    requires
        spec_rules_added(a, s, namespace, r, b),
        spec_all_names_unique(a),
    ensures
        spec_all_names_unique(b),
        a.rules.len() <= b.rules.len(),
        b.rules.subrange(0, a.rules.len() as int) == a.rules,
        a.global_rules.len() <= b.global_rules.len(),
        b.global_rules.subrange(0, a.global_rules.len() as int) == a.global_rules,
{
    match spec_parse_file(s) {
        Err(e) => {
            assert(b.rules.subrange(0, a.rules.len() as int) =~= a.rules);
            assert(b.global_rules.subrange(0, a.global_rules.len() as int) =~= a.global_rules);
        },
        Ok(cs) => {
            let (f, res) = choose|f: YaraFile, res: Result<(), CompilationError>|
                #![trigger f@, spec_file_added(a, namespace, f.components@, res, b)]
                {
                    &&& f@ == cs
                    &&& spec_file_added(a, namespace, f.components@, res, b)
                    &&& r == match res {
                        Ok(()) => Ok::<(), AddRuleError>(()),
                        Err(e) => Err(AddRuleError::CompilationError(e)),
                    }
                };
            lemma_file_keeps_names_unique(a, namespace, f.components@, res, b);
            lemma_file_keeps_rules(a, namespace, f.components@, res, b);
        },
    }
}

} // verus!

verus! {

/// Whether every rule recorded with an index in `entries` is the rule of
/// that index, by its name.
pub open spec fn spec_entries_valid(entries: Seq<(String, Option<usize>)>, rules: Seq<Rule>) -> bool {
    forall|k: int|
        #![trigger entries[k]]
        0 <= k < entries.len() ==> (entries[k].1 matches Some(i) ==> i < rules.len()
            && rules[i as int].name@ == entries[k].0@)
}

/// Whether, in every namespace of the compiler, every rule recorded with an
/// index is the compiled rule of that index.
pub open spec fn spec_indexes_valid(c: CompilerView) -> bool {
    &&& spec_entries_valid(c.default_namespace.rules_indexes@, c.rules)
    &&& forall|n: int|
        #![trigger c.namespaces[n]]
        0 <= n < c.namespaces.len() ==> spec_entries_valid(c.namespaces[n].rules_indexes@, c.rules)
}

/// Lemma: recorded indexes stay valid when rules are added after the
/// others.
proof fn lemma_entries_grow(entries: Seq<(String, Option<usize>)>, r1: Seq<Rule>, r2: Seq<Rule>)
    requires
        spec_entries_valid(entries, r1),
        r1.len() <= r2.len(),
        r2.subrange(0, r1.len() as int) == r1,
    ensures
        spec_entries_valid(entries, r2),
{
    assert forall|k: int|
        #![trigger entries[k]]
        0 <= k < entries.len() implies (entries[k].1 matches Some(i) ==> i < r2.len()
        && r2[i as int].name@ == entries[k].0@) by {
        if let Some(i) = entries[k].1 {
            assert(r2.subrange(0, r1.len() as int)[i as int] == r2[i as int]);
        }
    }
}

/// Adding a component keeps every index recorded in the namespace valid:
/// a rule is recorded with the index at which it is added.
pub proof fn lemma_step_keeps_indexes(
    a: CompileState,
    c: YaraFileComponent,
    r: Result<(), CompilationError>,
    b: CompileState,
)
    requires
        spec_component_step(a, c, r, b),
        spec_entries_valid(a.ns.rules_indexes@, a.rules),
        b.rules.len() <= usize::MAX,
    ensures
        spec_entries_valid(b.ns.rules_indexes@, b.rules),
{
    lemma_step_keeps_rules(a, c, r, b);
    lemma_entries_grow(a.ns.rules_indexes@, a.rules, b.rules);
    if let YaraFileComponent::Rule(decl) = c {
        let e = b.ns.rules_indexes@;
        if spec_forbidden(a.ns.forbidden_rule_prefixes@, decl.name@) is None && spec_rule_compiles(
            *decl,
            a.ns,
        ) && spec_find_name(a.ns.rules_indexes@, decl.name@) is None {
            let rule = if decl.is_global {
                b.global_rules.last()
            } else {
                b.rules.last()
            };
            assert(spec_compile_rule_outcome(*decl, a.ns, Ok::<Rule, CompilationError>(rule)));
            let decls = decl.variables@;
            let names = spec_declared_names(decls);
            let condition = spec_compile_expr(decl.condition, names, a.ns)->Ok_0;
            assert(spec_rule_compiled(*decl, a.ns, condition, rule));
            assert(rule.name == decl.name);
            assert forall|k: int|
                #![trigger e[k]]
                0 <= k < e.len() implies (e[k].1 matches Some(i) ==> i < b.rules.len()
                && b.rules[i as int].name@ == e[k].0@) by {
                if k < e.len() - 1 {
                    assert(e[k] == a.ns.rules_indexes@[k]);
                } else if !decl.is_global {
                    assert(b.rules.last() == b.rules[a.rules.len() as int]);
                }
            }
        }
    }
}

/// Lemma: no state of a trace has more rules than the last one.
proof fn lemma_trace_rules_len(
    states: Seq<CompileState>,
    cs: Seq<YaraFileComponent>,
    r: Result<(), CompilationError>,
    n: int,
)
    requires
        spec_components_trace(states, cs, r),
        0 <= n < states.len(),
    ensures
        states[n].rules.len() <= states.last().rules.len(),
    decreases states.len() - n,
{
    if n < states.len() - 1 {
        lemma_trace_rules_len(states, cs, r, n + 1);
        if n < states.len() - 2 {
            assert(spec_component_step(states[n], cs[n], Ok(()), states[n + 1]));
            lemma_step_keeps_rules(states[n], cs[n], Ok(()), states[n + 1]);
        } else {
            match r {
                Ok(()) => {
                    lemma_step_keeps_rules(states[n], cs[n], Ok(()), states[n + 1]);
                },
                Err(e) => {
                    lemma_step_keeps_rules(states[n], cs[n], Err(e), states[n + 1]);
                },
            }
        }
    }
}

/// Lemma: every state of a trace keeps its namespace indexes valid when the
/// first does.
proof fn lemma_trace_keeps_indexes(
    states: Seq<CompileState>,
    cs: Seq<YaraFileComponent>,
    r: Result<(), CompilationError>,
    n: int,
)
    requires
        spec_components_trace(states, cs, r),
        spec_entries_valid(states[0].ns.rules_indexes@, states[0].rules),
        states.last().rules.len() <= usize::MAX,
        0 <= n < states.len(),
    ensures
        spec_entries_valid(states[n].ns.rules_indexes@, states[n].rules),
    decreases n,
{
    if n > 0 {
        lemma_trace_keeps_indexes(states, cs, r, n - 1);
        lemma_trace_rules_len(states, cs, r, n);
        if n - 1 < states.len() - 2 {
            assert(spec_component_step(states[n - 1], cs[n - 1], Ok(()), states[(n - 1) + 1]));
            lemma_step_keeps_indexes(states[n - 1], cs[n - 1], Ok(()), states[n]);
        } else {
            match r {
                Ok(()) => {
                    lemma_step_keeps_indexes(states[n - 1], cs[n - 1], Ok(()), states[n]);
                },
                Err(e) => {
                    lemma_step_keeps_indexes(states[n - 1], cs[n - 1], Err(e), states[n]);
                },
            }
        }
    }
}

/// Adding the components of a file keeps, in every namespace, every rule
/// recorded with an index the compiled rule of that index, whether it
/// succeeds or not.
pub proof fn lemma_file_keeps_indexes(
    a: CompilerView,
    namespace: Option<String>,
    cs: Seq<YaraFileComponent>,
    r: Result<(), CompilationError>,
    b: CompilerView,
)
    requires
        spec_file_added(a, namespace, cs, r, b),
        spec_indexes_valid(a),
        b.rules.len() <= usize::MAX,
    ensures
        spec_indexes_valid(b),
{
    let states = choose|states: Seq<CompileState>|
        #![trigger spec_components_trace(states, cs, r)]
        {
            &&& spec_components_trace(states, cs, r)
            &&& spec_starting_namespace(a, namespace, states[0].ns)
            &&& states[0] == state_of(a, states[0].ns)
            &&& states.last() == state_of(b, states.last().ns)
            &&& spec_namespace_placed(a, namespace, states.last().ns, b)
        };
    let last = states.last().ns;
    lemma_file_keeps_rules(a, namespace, cs, r, b);
    match namespace {
        None => {},
        Some(name) => {
            match spec_namespace_index(a.namespaces, name@) {
                Some(k) => {
                    lemma_namespace_index_bounds(a.namespaces, name@);
                    assert(spec_entries_valid(a.namespaces[k].rules_indexes@, a.rules));
                },
                None => {},
            }
        },
    }
    lemma_trace_keeps_indexes(states, cs, r, states.len() - 1);
    assert(spec_entries_valid(last.rules_indexes@, b.rules));
    match namespace {
        None => {
            assert forall|n: int|
                #![trigger b.namespaces[n]]
                0 <= n < b.namespaces.len() implies spec_entries_valid(
                b.namespaces[n].rules_indexes@,
                b.rules,
            ) by {
                lemma_entries_grow(a.namespaces[n].rules_indexes@, a.rules, b.rules);
            }
        },
        Some(name) => {
            lemma_entries_grow(a.default_namespace.rules_indexes@, a.rules, b.rules);
            match spec_namespace_index(a.namespaces, name@) {
                Some(k) => {
                    lemma_namespace_index_bounds(a.namespaces, name@);
                    assert(b.namespaces == a.namespaces.update(k, last));
                    assert forall|n: int|
                        #![trigger b.namespaces[n]]
                        0 <= n < b.namespaces.len() implies spec_entries_valid(
                        b.namespaces[n].rules_indexes@,
                        b.rules,
                    ) by {
                        if n != k {
                            lemma_entries_grow(a.namespaces[n].rules_indexes@, a.rules, b.rules);
                        }
                    }
                },
                None => {
                    assert(b.namespaces == a.namespaces.push(last));
                    assert forall|n: int|
                        #![trigger b.namespaces[n]]
                        0 <= n < b.namespaces.len() implies spec_entries_valid(
                        b.namespaces[n].rules_indexes@,
                        b.rules,
                    ) by {
                        if n < a.namespaces.len() {
                            lemma_entries_grow(a.namespaces[n].rules_indexes@, a.rules, b.rules);
                        }
                    }
                },
            }
        },
    }
}

/// Adding rules from text keeps, in every namespace, every rule recorded
/// with an index the compiled rule of that index, whatever the outcome.
pub proof fn lemma_rules_added_keep_indexes(
    a: CompilerView,
    s: Seq<u8>,
    namespace: Option<String>,
    r: Result<(), AddRuleError>,
    b: CompilerView,
)
    requires
        spec_rules_added(a, s, namespace, r, b),
        spec_indexes_valid(a),
        b.rules.len() <= usize::MAX,
    ensures
        spec_indexes_valid(b),
{
    match spec_parse_file(s) {
        Err(e) => {},
        Ok(cs) => {
            let (f, res) = choose|f: YaraFile, res: Result<(), CompilationError>|
                #![trigger f@, spec_file_added(a, namespace, f.components@, res, b)]
                {
                    &&& f@ == cs
                    &&& spec_file_added(a, namespace, f.components@, res, b)
                    &&& r == match res {
                        Ok(()) => Ok::<(), AddRuleError>(()),
                        Err(e) => Err(AddRuleError::CompilationError(e)),
                    }
                };
            lemma_file_keeps_indexes(a, namespace, f.components@, res, b);
        },
    }
}

} // verus!

verus! {

/// What an accepted rule does to the state: a global rule is added after
/// the global rules and recorded in the namespace without index; another
/// rule is added after the rules and recorded with its index. The rule added
/// has the name of the declaration.
pub open spec fn spec_rule_appended(a: CompileState, decl: RuleDeclaration, b: CompileState) -> bool {
    if decl.is_global {
        &&& b.rules == a.rules
        &&& b.global_rules.len() == a.global_rules.len() + 1
        &&& b.global_rules.drop_last() == a.global_rules
        &&& b.global_rules.last().name == decl.name
        &&& b.ns.rules_indexes@ == a.ns.rules_indexes@.push((decl.name, None))
    } else {
        &&& b.global_rules == a.global_rules
        &&& b.rules.len() == a.rules.len() + 1
        &&& b.rules.drop_last() == a.rules
        &&& b.rules.last().name == decl.name
        &&& b.ns.rules_indexes@ == a.ns.rules_indexes@.push(
            (decl.name, Some(a.rules.len() as usize)),
        )
    }
}

/// Lemma: an accepted rule is appended, see [`spec_rule_appended`].
proof fn lemma_rule_step_ok(a: CompileState, decl: RuleDeclaration, b: CompileState)
    requires
        spec_rule_step(a, decl, Ok(()), b),
    ensures
        spec_rule_appended(a, decl, b),
{
    let rule = if decl.is_global {
        b.global_rules.last()
    } else {
        b.rules.last()
    };
    assert(spec_compile_rule_outcome(decl, a.ns, Ok::<Rule, CompilationError>(rule)));
    let names = spec_declared_names(decl.variables@);
    let condition = spec_compile_expr(decl.condition, names, a.ns)->Ok_0;
    assert(spec_rule_compiled(decl, a.ns, condition, rule));
}

/// Adding the components of a file goes through the components in order:
/// each rule accepted is appended after the rules added before it, and
/// recorded in the namespace, with its index for a rule that is not
/// global; the components after a failing one are not added.
pub proof fn lemma_file_added_appends_in_order(
    a: CompilerView,
    namespace: Option<String>,
    cs: Seq<YaraFileComponent>,
    r: Result<(), CompilationError>,
    b: CompilerView,
)
    requires
        spec_file_added(a, namespace, cs, r, b),
    ensures
        exists|states: Seq<CompileState>|
            #![trigger spec_components_trace(states, cs, r)]
            {
                &&& spec_components_trace(states, cs, r)
                &&& states[0] == state_of(a, states[0].ns)
                &&& states.last() == state_of(b, states.last().ns)
                &&& forall|i: int|
                    #![trigger states[i + 1]]
                    0 <= i < states.len() - 1 && (r is Ok || i < states.len() - 2) ==> (
                    cs[i] matches YaraFileComponent::Rule(d) ==> spec_rule_appended(
                        states[i],
                        *d,
                        states[i + 1],
                    ))
            },
{
    let states = choose|states: Seq<CompileState>|
        #![trigger spec_components_trace(states, cs, r)]
        {
            &&& spec_components_trace(states, cs, r)
            &&& spec_starting_namespace(a, namespace, states[0].ns)
            &&& states[0] == state_of(a, states[0].ns)
            &&& states.last() == state_of(b, states.last().ns)
            &&& spec_namespace_placed(a, namespace, states.last().ns, b)
        };
    assert forall|i: int|
        #![trigger states[i + 1]]
        0 <= i < states.len() - 1 && (r is Ok || i < states.len() - 2) implies (
        cs[i] matches YaraFileComponent::Rule(d) ==> spec_rule_appended(states[i], *d, states[i + 1]))
        by {
        if let YaraFileComponent::Rule(d) = cs[i] {
            if i < states.len() - 2 {
                assert(spec_component_step(states[i], cs[i], Ok(()), states[i + 1]));
            } else {
                assert(states[i + 1] == states.last());
                assert(spec_component_step(states[i], cs[i], Ok(()), states[i + 1]));
            }
            lemma_rule_step_ok(states[i], *d, states[i + 1]);
        }
    }
}

} // verus!
