//! Source files and `include`: loading a file into the module registry, and
//! merging the function definitions of a file and everything it includes
//! into one program.
//!
//! Reading files is the caller's part. Merging is a state machine
//! ([`Merge`]): each [`Merge::step`] either asks for a file to be loaded
//! ([`MergeAction::Load`]), which the caller reads and hands to
//! [`ModuleSystem::merge_load`], or moves on, or finishes with the program.
use vstd::prelude::*;
use crate::ast::{Program, Stmt, StmtV, Type, TypeV, Visibility};
use crate::ast;
use crate::parser;
use crate::parser::{Parser, PErrV};
use crate::text;
use crate::text::{push_str, push_decimal, push_debug_str};

verus! {

// ---------------------------------------------------------------------------
// Paths (std::path)
// ---------------------------------------------------------------------------

/// The extension of a path as `Path::extension` gives it, as text.
pub uninterp spec fn path_extension(path: Seq<char>) -> Option<Seq<char>>;

/// The file name without its extension, as `Path::file_stem` gives it.
pub uninterp spec fn path_stem(path: Seq<char>) -> Option<Seq<char>>;

/// The directory of a path as `Path::parent` gives it (empty when it has none).
pub uninterp spec fn path_parent(path: Seq<char>) -> Seq<char>;

/// `Path::join` of a directory and a relative path, as text.
pub uninterp spec fn path_join(dir: Seq<char>, rel: Seq<char>) -> Seq<char>;

/// `Path::extension` of `path`, converted to text. The contract names the
/// result; it does not restate std's rules for what counts as an extension.
#[verifier::external_body]
fn extension_of(path: &str) -> (r: Option<String>)
    ensures
        match r {
            Some(e) => path_extension(path@) == Some(e@),
            None => path_extension(path@) is None,
        },
{
    match std::path::Path::new(path).extension() {
        Some(e) => match e.to_str() {
            Some(s) => Some(s.to_string()),
            None => None,
        },
        None => None,
    }
}

/// `Path::file_stem` of `path`, converted to text (the result is named).
#[verifier::external_body]
fn stem_of(path: &str) -> (r: Option<String>)
    ensures
        match r {
            Some(e) => path_stem(path@) == Some(e@),
            None => path_stem(path@) is None,
        },
{
    match std::path::Path::new(path).file_stem() {
        Some(e) => match e.to_str() {
            Some(s) => Some(s.to_string()),
            None => None,
        },
        None => None,
    }
}

/// `Path::parent` of `path` as text, empty where there is none (named).
#[verifier::external_body]
fn parent_of(path: &str) -> (r: String)
    ensures
        r@ == path_parent(path@),
{
    match std::path::Path::new(path).parent() {
        Some(p) => p.to_string_lossy().to_string(),
        None => String::new(),
    }
}

/// `Path::join` of `dir` and `rel`, as text (named).
#[verifier::external_body]
fn join_of(dir: &str, rel: &str) -> (r: String)
    ensures
        r@ == path_join(dir@, rel@),
{
    std::path::Path::new(dir).join(rel).to_string_lossy().to_string()
}

// ---------------------------------------------------------------------------
// Signatures and modules
// ---------------------------------------------------------------------------

#[derive(Debug)]
pub struct FunctionSignature {
    pub name: String,
    pub params: Vec<(String, Type)>,
    pub return_type: Option<Type>,
    pub visibility: Visibility,
}

/// The mathematical value of a signature.
pub struct SigV {
    pub name: Seq<char>,
    pub params: Seq<(Seq<char>, TypeV)>,
    pub return_type: Option<TypeV>,
    pub visibility: Visibility,
}

pub open spec fn sig_view(f: FunctionSignature) -> SigV {
    SigV {
        name: f.name@,
        params: ast::params_view(f.params@),
        return_type: ast::opt_type_view(f.return_type),
        visibility: f.visibility,
    }
}

pub open spec fn sigs_view(v: Seq<FunctionSignature>) -> Seq<SigV> {
    Seq::new(v.len(), |i: int| sig_view(v[i]))
}

/// The signature a statement gives: a declaration when `decl`, else a definition.
pub open spec fn stmt_sig(s: StmtV, decl: bool) -> Option<SigV> {
    match s {
        StmtV::FnDecl { visibility, name, params, return_type, .. } => if decl {
            Some(SigV { name, params, return_type, visibility })
        } else {
            None
        },
        StmtV::FnDef { visibility, name, params, return_type, .. } => if !decl {
            Some(SigV { name, params, return_type, visibility })
        } else {
            None
        },
        _ => None,
    }
}

/// The signatures of the declarations (or definitions) among `ss`, in order.
pub open spec fn sigs_of(ss: Seq<StmtV>, decl: bool) -> Seq<SigV>
    decreases ss.len(),
{
    if ss.len() == 0 {
        Seq::empty()
    } else {
        sigs_of(ss.drop_last(), decl) + match stmt_sig(ss.last(), decl) {
            Some(g) => seq![g],
            None => Seq::empty(),
        }
    }
}

/// The signature named `name` in a table where a later entry replaces an
/// earlier one of the same name.
pub open spec fn lookup_sig(s: Seq<SigV>, name: Seq<char>) -> Option<SigV>
    decreases s.len(),
{
    if s.len() == 0 {
        None
    } else if s.last().name == name {
        Some(s.last())
    } else {
        lookup_sig(s.drop_last(), name)
    }
}

#[derive(Debug)]
pub struct Module {
    pub name: String,
    pub path: String,
    pub program: Program,
    pub declarations: Vec<FunctionSignature>,
    pub definitions: Vec<FunctionSignature>,
}

pub struct ModuleV {
    pub name: Seq<char>,
    pub path: Seq<char>,
    pub program: Seq<StmtV>,
    pub declarations: Seq<SigV>,
    pub definitions: Seq<SigV>,
}

pub open spec fn module_view(m: Module) -> ModuleV {
    ModuleV {
        name: m.name@,
        path: m.path@,
        program: ast::program_view(m.program),
        declarations: sigs_view(m.declarations@),
        definitions: sigs_view(m.definitions@),
    }
}

/// What parsing a source gives: the statements and the errors.
pub open spec fn parse_result(source: Seq<char>) -> (Seq<StmtV>, Seq<PErrV>) {
    let (ss, _, es) = parser::stmts_s(parser::parser_tokens(source), 0, seq![], seq![], true);
    (ss, es)
}

/// One parse error as the error report lists it.
pub open spec fn error_detail(e: PErrV) -> Seq<char> {
    text::debug_str(e.0) + " @ "@ + text::decimal(e.1.start as nat) + ".."@ + text::decimal(e.1.end as nat)
}

/// The parse errors, separated by `; `.
pub open spec fn error_details(es: Seq<PErrV>) -> Seq<char>
    decreases es.len(),
{
    if es.len() == 0 {
        Seq::empty()
    } else if es.len() == 1 {
        error_detail(es[0])
    } else {
        error_details(es.drop_last()) + "; "@ + error_detail(es.last())
    }
}

/// Whether a source file may be loaded: its extension is `xre` or `xrh`.
pub open spec fn extension_error(path: Seq<char>) -> Option<Seq<char>> {
    match path_extension(path) {
        None => Some("No file extension"@),
        Some(e) => if e == "xre"@ || e == "xrh"@ {
            None
        } else {
            Some("Unsupported file extension: "@ + e)
        },
    }
}

/// The outcome of loading `source` from `path`: the error, or the module.
pub open spec fn load_outcome(path: Seq<char>, source: Seq<char>) -> Result<ModuleV, Seq<char>> {
    let (ss, es) = parse_result(source);
    match extension_error(path) {
        Some(e) => Err(e),
        None => if es.len() > 0 {
            Err("Parse errors in "@ + path + ": "@ + error_details(es))
        } else {
            match path_stem(path) {
                None => Err("Invalid file name"@),
                Some(name) => Ok(
                    ModuleV {
                        name,
                        path,
                        program: ss,
                        declarations: sigs_of(ss, true),
                        definitions: sigs_of(ss, false),
                    },
                ),
            }
        },
    }
}

/// Checks the extension of a source file.
pub fn check_extension(path: &str) -> (r: Result<(), String>)
    ensures
        match extension_error(path@) {
            None => r is Ok,
            Some(e) => r matches Err(m) && m@ == e,
        },
{
    match extension_of(path) {
        None => Err(String::from_str("No file extension")),
        Some(e) => {
            if text::str_eq(e.as_str(), "xre") || text::str_eq(e.as_str(), "xrh") {
                Ok(())
            } else {
                let mut m = String::from_str("Unsupported file extension: ");
                push_str(&mut m, e.as_str());
                Err(m)
            }
        },
    }
}

fn copy_params(v: &Vec<(String, Type)>) -> (r: Vec<(String, Type)>)
    ensures
        ast::params_view(r@) == ast::params_view(v@),
{
    let mut r: Vec<(String, Type)> = Vec::new();
    let mut i: usize = 0;
    while i < v.len()
        invariant
            i <= v@.len(),
            r@.len() == i,
            forall|k: int| 0 <= k < i ==> (#[trigger] r@[k]).0@ == v@[k].0@ && r@[k].1 == v@[k].1,
        decreases v@.len() - i,
    {
        let (n, t) = (v[i].0.clone(), v[i].1.clone());
        r.push((n, t));
        i = i + 1;
    }
    assert(ast::params_view(r@) =~= ast::params_view(v@));
    r
}

fn copy_opt_type(t: &Option<Type>) -> (r: Option<Type>)
    ensures
        r == *t,
{
    match t {
        Some(x) => Some(x.clone()),
        None => None,
    }
}

/// The declarations (or definitions) of a list of statements.
fn collect_sigs(stmts: &Vec<Stmt>, decl: bool) -> (r: Vec<FunctionSignature>)
    ensures
        sigs_view(r@) == sigs_of(ast::stmts_view(stmts@), decl),
{
    let ghost ss = ast::stmts_view(stmts@);
    proof {
        ast::lemma_stmts_view(stmts@);
    }
    let mut r: Vec<FunctionSignature> = Vec::new();
    let mut i: usize = 0;
    while i < stmts.len()
        invariant
            i <= stmts@.len(),
            ss == ast::stmts_view(stmts@),
            ss.len() == stmts@.len(),
            forall|k: int| 0 <= k < stmts@.len() ==> #[trigger] ss[k] == ast::stmt_view(stmts@[k]),
            sigs_view(r@) == sigs_of(ss.take(i as int), decl),
        decreases stmts@.len() - i,
    {
        let ghost before = r@;
        let got = match &stmts[i] {
            Stmt::FnDecl { visibility, name, params, return_type, .. } => if decl {
                Some(
                    FunctionSignature {
                        name: name.clone(),
                        params: copy_params(params),
                        return_type: copy_opt_type(return_type),
                        visibility: *visibility,
                    },
                )
            } else {
                None
            },
            Stmt::FnDef { visibility, name, params, return_type, .. } => if !decl {
                Some(
                    FunctionSignature {
                        name: name.clone(),
                        params: copy_params(params),
                        return_type: copy_opt_type(return_type),
                        visibility: *visibility,
                    },
                )
            } else {
                None
            },
            _ => None,
        };
        proof {
            assert(ss.take(i as int + 1).drop_last() =~= ss.take(i as int));
        }
        match got {
            Some(g) => {
                assert(stmt_sig(ss[i as int], decl) == Some(sig_view(g)));
                r.push(g);
                assert(sigs_view(r@) =~= sigs_view(before) + seq![sig_view(g)]);
            },
            None => {
                assert(stmt_sig(ss[i as int], decl) is None);
                assert(sigs_view(r@) =~= sigs_view(before) + Seq::<SigV>::empty());
            },
        }
        i = i + 1;
    }
    proof {
        assert(ss.take(stmts@.len() as int) =~= ss);
    }
    r
}

/// Appends the parse errors, separated by `; `.
fn push_error_details(out: &mut String, errs: &[parser::ParseError])
    ensures
        final(out)@ == old(out)@ + error_details(parser::perrs_view(errs@)),
{
    let ghost es = parser::perrs_view(errs@);
    let ghost o0 = out@;
    let mut i: usize = 0;
    proof {
        assert(es.take(0) =~= Seq::<PErrV>::empty());
        assert(o0 =~= o0 + error_details(es.take(0)));
    }
    while i < errs.len()
        invariant
            i <= errs@.len(),
            es == parser::perrs_view(errs@),
            es.len() == errs@.len(),
            out@ == o0 + error_details(es.take(i as int)),
        decreases errs@.len() - i,
    {
        let ghost before = out@;
        if i > 0 {
            push_str(out, "; ");
        }
        push_debug_str(out, errs[i].message.as_str());
        push_str(out, " @ ");
        push_decimal(out, errs[i].span.start as u64);
        push_str(out, "..");
        push_decimal(out, errs[i].span.end as u64);
        proof {
            let t = es.take(i as int + 1);
            assert(t.drop_last() =~= es.take(i as int));
            assert(es[i as int] == parser::perr_view(errs@[i as int]));
            if i == 0 {
                assert(t =~= seq![es[0]]);
                assert(out@ =~= before + error_detail(es[0]));
            } else {
                assert(out@ =~= before + ("; "@ + error_detail(es[i as int])));
            }
        }
        i = i + 1;
    }
    proof {
        assert(es.take(errs@.len() as int) =~= es);
    }
}

/// The modules loaded so far and the directories searched for includes. A
/// module loaded again under the same name replaces the earlier one: the
/// list keeps both and a later entry shadows an earlier one.
pub struct ModuleSystem {
    modules: Vec<Module>,
    include_paths: Vec<String>,
}

/// Whether entry `i` of a module list is not shadowed by a later one.
pub open spec fn live(ms: Seq<ModuleV>, i: int) -> bool {
    0 <= i < ms.len() && forall|j: int| i < j < ms.len() ==> (#[trigger] ms[j]).name != ms[i].name
}

impl ModuleSystem {
    pub closed spec fn modules_v(&self) -> Seq<ModuleV> {
        Seq::new(self.modules@.len(), |i: int| module_view(self.modules@[i]))
    }

    pub closed spec fn include_paths_v(&self) -> Seq<Seq<char>> {
        Seq::new(self.include_paths@.len(), |i: int| self.include_paths@[i]@)
    }

    pub fn new() -> (r: Self)
        ensures
            r.modules_v() == Seq::<ModuleV>::empty(),
            r.include_paths_v() == seq!["."@],
    {
        let r = ModuleSystem { modules: Vec::new(), include_paths: vec![String::from_str(".")] };
        assert(r.modules_v() =~= Seq::<ModuleV>::empty());
        assert(r.include_paths_v() =~= seq!["."@]);
        r
    }

    pub fn add_include_path(&mut self, path: String)
        ensures
            final(self).include_paths_v() == old(self).include_paths_v().push(path@),
            final(self).modules_v() == old(self).modules_v(),
    {
        self.include_paths.push(path);
        assert(self.include_paths_v() =~= old(self).include_paths_v().push(path@));
        assert(self.modules_v() =~= old(self).modules_v());
    }

    /// Loads a source file whose text has been read: checks its extension,
    /// parses it, and registers the module under the file's stem with the
    /// functions it declares and defines. Gives back the source.
    pub fn load_source(&mut self, path: &str, source: &str) -> (r: Result<String, String>)
        requires
            crate::lexer::lex_all(source@, 0) is Some,
        ensures
            match load_outcome(path@, source@) {
                Ok(m) => r matches Ok(s) && s@ == source@ && final(self).modules_v() == old(self).modules_v().push(m),
                Err(e) => r matches Err(x) && x@ == e && final(self).modules_v() == old(self).modules_v(),
            },
            final(self).include_paths_v() == old(self).include_paths_v(),
    {
        match check_extension(path) {
            Err(e) => {
                return Err(e);
            },
            Ok(()) => {},
        }
        let mut parser = Parser::new(source);
        let program = parser.parse_program();
        if parser.has_errors() {
            let mut m = String::from_str("Parse errors in ");
            push_str(&mut m, path);
            push_str(&mut m, ": ");
            push_error_details(&mut m, parser.get_errors());
            return Err(m);
        }
        let declarations = collect_sigs(&program.stmts, true);
        let definitions = collect_sigs(&program.stmts, false);
        let name = match stem_of(path) {
            Some(n) => n,
            None => {
                return Err(String::from_str("Invalid file name"));
            },
        };
        let module = Module { name, path: String::from_str(path), program, declarations, definitions };
        let ghost mv = module_view(module);
        self.modules.push(module);
        assert(self.modules_v() =~= old(self).modules_v().push(mv));
        Ok(String::from_str(source))
    }

    /// The signature of a function named `name`: a definition, or failing
    /// that a declaration, in some module that is not shadowed. Which module
    /// answers when several have the name is left open.
    pub fn find_function(&self, name: &str) -> (r: Option<&FunctionSignature>)
        ensures
            r is None <==> forall|i: int|
                live(self.modules_v(), i) ==> lookup_sig((#[trigger] self.modules_v()[i]).definitions, name@) is None
                    && lookup_sig(self.modules_v()[i].declarations, name@) is None,
            r matches Some(sig) ==> exists|i: int|
                live(self.modules_v(), i) && ({
                    let m = #[trigger] self.modules_v()[i];
                    lookup_sig(m.definitions, name@) == Some(sig_view(*sig)) || (lookup_sig(m.definitions, name@) is None
                        && lookup_sig(m.declarations, name@) == Some(sig_view(*sig)))
                }),
    {
        let ghost ms = self.modules_v();
        let n = self.modules.len();
        let mut i: usize = 0;
        while i < n
            invariant
                n == self.modules@.len(),
                ms == self.modules_v(),
                i <= n,
                forall|k: int|
                    0 <= k < i && live(ms, k) ==> lookup_sig((#[trigger] ms[k]).definitions, name@) is None && lookup_sig(
                        ms[k].declarations,
                        name@,
                    ) is None,
            decreases n - i,
        {
            if self.is_live(i) {
                let m = &self.modules[i];
                assert(module_view(*m) == ms[i as int]);
                match find_sig(&m.definitions, name) {
                    Some(s) => {
                        return Some(s);
                    },
                    None => {},
                }
                match find_sig(&m.declarations, name) {
                    Some(s) => {
                        return Some(s);
                    },
                    None => {},
                }
            }
            i = i + 1;
        }
        None
    }

    /// Whether module entry `i` is not shadowed by a later one.
    fn is_live(&self, i: usize) -> (b: bool)
        requires
            i < self.modules@.len(),
        ensures
            b == live(self.modules_v(), i as int),
    {
        let ghost ms = self.modules_v();
        let n = self.modules.len();
        let mut j: usize = i + 1;
        while j < n
            invariant
                n == self.modules@.len(),
                ms == self.modules_v(),
                i < j <= n,
                forall|k: int| i < k < j ==> (#[trigger] ms[k]).name != ms[i as int].name,
            decreases n - j,
        {
            if text::str_eq(self.modules[j].name.as_str(), self.modules[i].name.as_str()) {
                assert(ms[j as int].name == ms[i as int].name);
                return false;
            }
            j = j + 1;
        }
        true
    }

    /// Starts merging the file at `entry_path` with everything it includes
    /// into one program: the merge asks for each file through
    /// [`Merge::step`], and the caller hands it over with
    /// [`ModuleSystem::merge_load`] until the merge is done.
    pub fn build_merged_program(&self, entry_path: &str) -> (m: Merge)
        ensures
            m.wf(),
            m.view() == (MergeV {
                visited: Seq::empty(),
                names: Seq::empty(),
                defs: Seq::empty(),
                stack: Seq::empty(),
                pending: Some(entry_path@),
            }),
    {
        Merge::new(entry_path)
    }

    /// Loads a file the merge asked for (see [`MergeAction::Load`]) and
    /// goes on with its statements, resolving its includes against its
    /// directory.
    pub fn merge_load(&mut self, merge: &mut Merge, path: &str, source: &str) -> (r: Result<(), String>)
        requires
            crate::lexer::lex_all(source@, 0) is Some,
            old(merge).wf(),
        ensures
            match load_outcome(path@, source@) {
                Ok(m) => r is Ok && final(self).modules_v() == old(self).modules_v().push(m) && final(merge).view()
                    == old(merge).view().enter(path_parent(path@), m.program),
                Err(e) => r matches Err(x) && x@ == e && final(self).modules_v() == old(self).modules_v()
                    && final(merge).view() == old(merge).view(),
            },
            final(merge).wf(),
            final(self).include_paths_v() == old(self).include_paths_v(),
    {
        match self.load_source(path, source) {
            Err(e) => Err(e),
            Ok(_) => {
                // The merge works on its own parse of the text, which is the
                // program just registered.
                let mut parser = Parser::new(source);
                let program = parser.parse_program();
                let dir = parent_of(path);
                merge.enter(dir, program);
                Ok(())
            },
        }
    }
}

/// The last signature named `name` in a table.
fn find_sig<'a>(v: &'a Vec<FunctionSignature>, name: &str) -> (r: Option<&'a FunctionSignature>)
    ensures
        match lookup_sig(sigs_view(v@), name@) {
            Some(g) => r matches Some(s) && sig_view(*s) == g,
            None => r is None,
        },
{
    let ghost sv = sigs_view(v@);
    let mut i: usize = v.len();
    assert(sv.take(i as int) =~= sv);
    while i > 0
        invariant
            i <= v@.len(),
            sv == sigs_view(v@),
            lookup_sig(sv, name@) == lookup_sig(sv.take(i as int), name@),
        decreases i,
    {
        let ghost t = sv.take(i as int);
        assert(t.drop_last() =~= sv.take(i as int - 1));
        if text::str_eq(v[i - 1].name.as_str(), name) {
            assert(t.last() == sig_view(v@[i - 1]));
            return Some(&v[i - 1]);
        }
        i = i - 1;
    }
    assert(sv.take(0) =~= Seq::<SigV>::empty());
    None
}

// ---------------------------------------------------------------------------
// Merging a file with its includes
// ---------------------------------------------------------------------------

/// A file being gone through: its directory and the statements still to
/// see (kept last-first, so that the next one is popped off the end).
struct Frame {
    dir: String,
    rest: Vec<Stmt>,
}

/// The state of a merge: the paths already loaded, the definitions found
/// (by name, in the order their names first appeared; a later definition
/// replaces the earlier one under the same name), the files being gone
/// through, innermost last, and an include waiting to be followed.
pub struct Merge {
    visited: Vec<String>,
    names: Vec<String>,
    defs: Vec<Stmt>,
    stack: Vec<Frame>,
    pending: Option<String>,
}

pub enum MergeAction {
    /// Load this file and hand it to [`ModuleSystem::merge_load`].
    Load(String),
    /// Nothing for the caller to do; step again.
    Continue,
    /// The merged program.
    Done(Program),
}

/// The mathematical value of a merge.
#[verifier::ext_equal]
pub struct MergeV {
    pub visited: Seq<Seq<char>>,
    pub names: Seq<Seq<char>>,
    pub defs: Seq<StmtV>,
    pub stack: Seq<(Seq<char>, Seq<StmtV>)>,
    pub pending: Option<Seq<char>>,
}

pub enum ActionV {
    Load(Seq<char>),
    Continue,
    Done(Seq<StmtV>),
}

impl MergeV {
    /// Going into a loaded file, whose directory is `dir`.
    pub open spec fn enter(self, dir: Seq<char>, stmts: Seq<StmtV>) -> MergeV {
        MergeV { stack: self.stack.push((dir, stmts)), ..self }
    }

    /// Recording definition `s` named `name`.
    pub open spec fn record(self, name: Seq<char>, s: StmtV) -> MergeV {
        if exists|i: int| 0 <= i < self.names.len() && self.names[i] == name {
            let i = choose|i: int| 0 <= i < self.names.len() && self.names[i] == name;
            MergeV { defs: self.defs.update(i, s), ..self }
        } else {
            MergeV { names: self.names.push(name), defs: self.defs.push(s), ..self }
        }
    }

    /// One step of a merge: the state after it and what the caller is to do.
    pub open spec fn step(self) -> (MergeV, ActionV) {
        match self.pending {
            Some(p) => if self.visited.contains(p) {
                (MergeV { pending: None, ..self }, ActionV::Continue)
            } else {
                (MergeV { pending: None, visited: self.visited.push(p), ..self }, ActionV::Load(p))
            },
            None => if self.stack.len() == 0 {
                (MergeV { names: Seq::empty(), defs: Seq::empty(), ..self }, ActionV::Done(self.defs))
            } else {
                let (dir, rest) = self.stack.last();
                if rest.len() == 0 {
                    (MergeV { stack: self.stack.drop_last(), ..self }, ActionV::Continue)
                } else {
                    let s = rest[0];
                    let m = MergeV { stack: self.stack.update(self.stack.len() - 1, (dir, rest.drop_first())), ..self };
                    match s {
                        StmtV::Include { path, .. } => (MergeV { pending: Some(path_join(dir, path)), ..m }, ActionV::Continue),
                        StmtV::FnDef { name, .. } => (m.record(name, s), ActionV::Continue),
                        _ => (m, ActionV::Continue),
                    }
                }
            },
        }
    }

    /// The definitions kept: one per name, each the definition of its name.
    pub open spec fn defs_ok(self) -> bool {
        &&& self.names.len() == self.defs.len()
        &&& forall|i: int, j: int| 0 <= i < j < self.names.len() ==> self.names[i] != self.names[j]
        &&& forall|i: int| 0 <= i < self.defs.len() ==> ((#[trigger] self.defs[i]) matches StmtV::FnDef { name, .. } && name == self.names[i])
    }
}

pub open spec fn action_view(a: MergeAction) -> ActionV {
    match a {
        MergeAction::Load(p) => ActionV::Load(p@),
        MergeAction::Continue => ActionV::Continue,
        MergeAction::Done(p) => ActionV::Done(ast::program_view(p)),
    }
}

/// The statements of a frame in the order they are still to be seen.
pub open spec fn rest_view(rest: Seq<Stmt>) -> Seq<StmtV> {
    Seq::new(rest.len(), |i: int| ast::stmt_view(rest[rest.len() - 1 - i]))
}

impl Merge {
    pub closed spec fn view(&self) -> MergeV {
        MergeV {
            visited: Seq::new(self.visited@.len(), |i: int| self.visited@[i]@),
            names: Seq::new(self.names@.len(), |i: int| self.names@[i]@),
            defs: ast::stmts_view(self.defs@),
            stack: Seq::new(self.stack@.len(), |i: int| (self.stack@[i].dir@, rest_view(self.stack@[i].rest@))),
            pending: match self.pending {
                Some(p) => Some(p@),
                None => None,
            },
        }
    }

    pub closed spec fn wf(&self) -> bool {
        self.view().defs_ok()
    }

    /// A merge that starts by loading `entry_path`.
    pub fn new(entry_path: &str) -> (r: Self)
        ensures
            r.wf(),
            r.view() == (MergeV {
                visited: Seq::empty(),
                names: Seq::empty(),
                defs: Seq::empty(),
                stack: Seq::empty(),
                pending: Some(entry_path@),
            }),
    {
        let r = Merge {
            visited: Vec::new(),
            names: Vec::new(),
            defs: Vec::new(),
            stack: Vec::new(),
            pending: Some(String::from_str(entry_path)),
        };
        assert(r.view().visited =~= Seq::<Seq<char>>::empty());
        assert(r.view().names =~= Seq::<Seq<char>>::empty());
        assert(r.view().stack =~= Seq::<(Seq<char>, Seq<StmtV>)>::empty());
        r
    }

    /// Pushes the statements of a loaded file.
    fn enter(&mut self, dir: String, program: Program)
        requires
            old(self).wf(),
        ensures
            final(self).wf(),
            final(self).view() == old(self).view().enter(dir@, ast::program_view(program)),
    {
        let mut stmts = program.stmts;
        let ghost sv = ast::stmts_view(stmts@);
        proof {
            ast::lemma_stmts_view(stmts@);
        }
        let ghost n = stmts@.len();
        let mut rest: Vec<Stmt> = Vec::new();
        while stmts.len() > 0
            invariant
                stmts@.len() + rest@.len() == n,
                sv.len() == n,
                forall|k: int| 0 <= k < stmts@.len() ==> #[trigger] ast::stmt_view(stmts@[k]) == sv[k],
                forall|k: int| 0 <= k < rest@.len() ==> #[trigger] ast::stmt_view(rest@[k]) == sv[n - 1 - k],
            decreases stmts@.len(),
        {
            let s = stmts.pop().unwrap();
            rest.push(s);
        }
        assert(rest_view(rest@) =~= sv);
        let ghost v0 = self.view();
        self.stack.push(Frame { dir, rest });
        assert(self.view().stack =~= v0.stack.push((dir@, sv)));
        assert(self.view() =~= v0.enter(dir@, sv));
    }

    /// Records definition `s` under `name`.
    fn record(&mut self, name: String, s: Stmt)
        requires
            old(self).wf(),
            ast::stmt_view(s) matches StmtV::FnDef { name: n, .. } && n == name@,
        ensures
            final(self).wf(),
            final(self).view() == old(self).view().record(name@, ast::stmt_view(s)),
    {
        let ghost v0 = self.view();
        proof {
            ast::lemma_stmts_view(self.defs@);
        }
        assert(self.defs@.len() == self.names@.len());
        let mut i: usize = 0;
        while i < self.names.len()
            invariant
                i <= self.names@.len(),
                v0 == self.view(),
                v0 == old(self).view(),
                ast::stmt_view(s) matches StmtV::FnDef { name: n, .. } && n == name@,
                v0.defs_ok(),
                self.defs@.len() == self.names@.len(),
                v0.defs.len() == self.defs@.len(),
                forall|k: int| 0 <= k < self.defs@.len() ==> v0.defs[k] == ast::stmt_view(#[trigger] self.defs@[k]),
                forall|k: int| 0 <= k < i ==> v0.names[k] != name@,
            decreases self.names@.len() - i,
        {
            if text::str_eq(self.names[i].as_str(), name.as_str()) {
                let ghost sv = ast::stmt_view(s);
                let mut d = s;
                core::mem::swap(&mut self.defs[i], &mut d);
                proof {
                    ast::lemma_stmts_view(self.defs@);
                    assert(v0.names[i as int] == name@);
                    let c = choose|c: int| 0 <= c < v0.names.len() && v0.names[c] == name@;
                    assert(c == i as int);
                    assert(self.view().defs =~= v0.defs.update(i as int, sv));
                    assert(self.view() =~= v0.record(name@, sv));
                }
                return;
            }
            i = i + 1;
        }
        let ghost sv = ast::stmt_view(s);
        let ghost nv = name@;
        self.names.push(name);
        self.defs.push(s);
        proof {
            ast::lemma_stmts_view(self.defs@);
            assert(self.view().names =~= v0.names.push(nv));
            assert(self.view().defs =~= v0.defs.push(sv));
            assert(self.view() =~= v0.record(nv, sv));
        }
    }

    /// One step of the merge (see [`MergeV::step`]).
    pub fn step(&mut self) -> (a: MergeAction)
        requires
            old(self).wf(),
        ensures
            final(self).wf(),
            (final(self).view(), action_view(a)) == old(self).view().step(),
    {
        let ghost v0 = self.view();
        let mut pending: Option<String> = None;
        core::mem::swap(&mut pending, &mut self.pending);
        match pending {
            Some(p) => {
                let mut k: usize = 0;
                while k < self.visited.len()
                    invariant
                        k <= self.visited@.len(),
                        self.view() == (MergeV { pending: None, ..v0 }),
                        v0.pending == Some(p@),
                        v0 == old(self).view(),
                        v0.defs_ok(),
                        forall|q: int| 0 <= q < k ==> self.visited@[q]@ != p@,
                    decreases self.visited@.len() - k,
                {
                    if text::str_eq(self.visited[k].as_str(), p.as_str()) {
                        assert(v0.visited[k as int] == p@);
                        assert(v0.visited.contains(p@));
                        assert(self.view() =~= MergeV { pending: None, ..v0 });
                        return MergeAction::Continue;
                    }
                    k = k + 1;
                }
                assert(!v0.visited.contains(p@));
                self.visited.push(p.clone());
                assert(self.view() =~= MergeV { pending: None, visited: v0.visited.push(p@), ..v0 });
                MergeAction::Load(p)
            },
            None => {
                if self.stack.len() == 0 {
                    let mut defs: Vec<Stmt> = Vec::new();
                    core::mem::swap(&mut defs, &mut self.defs);
                    self.names = Vec::new();
                    assert(self.view() =~= MergeV { names: Seq::empty(), defs: Seq::empty(), ..v0 });
                    return MergeAction::Done(Program { stmts: defs });
                }
                let top = self.stack.len() - 1;
                let mut frame = self.stack.pop().unwrap();
                match frame.rest.pop() {
                    None => {
                        assert(self.view() =~= MergeV { stack: v0.stack.drop_last(), ..v0 });
                        MergeAction::Continue
                    },
                    Some(s) => {
                        let ghost (dir, rest) = v0.stack.last();
                        assert(ast::stmt_view(s) == rest[0]);
                        assert(rest_view(frame.rest@) =~= rest.drop_first());
                        let ghost sv = ast::stmt_view(s);
                        let inc = match &s {
                            Stmt::Include { path, .. } => Some(join_of(frame.dir.as_str(), path.as_str())),
                            _ => None,
                        };
                        let name = match &s {
                            Stmt::FnDef { name, .. } => Some(name.clone()),
                            _ => None,
                        };
                        self.stack.push(frame);
                        let ghost m = MergeV { stack: v0.stack.update(v0.stack.len() - 1, (dir, rest.drop_first())), ..v0 };
                        assert(self.view() =~= m);
                        match inc {
                            Some(q) => {
                                self.pending = Some(q);
                                assert(self.view() =~= MergeV { pending: Some(q@), ..m });
                            },
                            None => {
                                match name {
                                    Some(n) => {
                                        self.record(n, s);
                                    },
                                    None => {},
                                }
                            },
                        }
                        MergeAction::Continue
                    },
                }
            },
        }
    }
}

/// Merging never loads a file twice: a step asks for a path only when it
/// has not been loaded, and the paths loaded only grow.
pub proof fn lemma_step_loads_once(m: MergeV)
    ensures
        m.step().1 matches ActionV::Load(p) ==> !m.visited.contains(p) && m.step().0.visited == m.visited.push(p),
        !(m.step().1 is Load) ==> m.step().0.visited == m.visited,
{
}

/// Every step keeps one definition per name, each the definition of its name.
pub proof fn lemma_step_keeps_defs(m: MergeV)
    requires
        m.defs_ok(),
    ensures
        m.step().0.defs_ok(),
{
    if m.pending is None && m.stack.len() > 0 {
        let (dir, rest) = m.stack.last();
        if rest.len() > 0 {
            let s = rest[0];
            let m2 = MergeV { stack: m.stack.update(m.stack.len() - 1, (dir, rest.drop_first())), ..m };
            match s {
                StmtV::FnDef { name, .. } => {
                    let r = m2.record(name, s);
                    if exists|i: int| 0 <= i < m2.names.len() && m2.names[i] == name {
                        let i = choose|i: int| 0 <= i < m2.names.len() && m2.names[i] == name;
                        assert forall|k: int| 0 <= k < r.defs.len() implies ((#[trigger] r.defs[k]) matches StmtV::FnDef {
                            name: n,
                            ..
                        } && n == r.names[k]) by {
                            if k != i {
                                assert(r.defs[k] == m2.defs[k]);
                            }
                        }
                    } else {
                        assert forall|k: int| 0 <= k < r.defs.len() implies ((#[trigger] r.defs[k]) matches StmtV::FnDef {
                            name: n,
                            ..
                        } && n == r.names[k]) by {
                            if k < m2.defs.len() {
                                assert(r.defs[k] == m2.defs[k]);
                            }
                        }
                    }
                },
                _ => {},
            }
        }
    }
}

} // verus!
