use crate::context::ParseContext;
use crate::fields::extract;
use crate::fields::parse_defines;
use crate::fields::stmts_view;
use crate::fields::Defines;
use crate::fields::DefinesV;
use crate::recipe::parse_recipe;
use crate::recipe::recipe_ctx;
use crate::stmt::PkgStmt;
use crate::stmt::PkgStmtV;
use crate::text::contains_str;
use crate::text::contains_sub;
use crate::text::push_char;
use crate::text::views_of;
use vstd::prelude::*;
use vstd::string::StringExecFns;

verus! {

// ---------------------------------------------------------------------------
// The records and the model of the tree
// ---------------------------------------------------------------------------

/// One buildable unit's record, as it is published to the store.
#[derive(Debug, Clone, PartialEq, Eq)]
pub struct Package {
    pub name: String,
    pub version: String,
    pub desc: String,
    pub path: String,
    pub section: String,
    pub deps: Vec<String>,
    pub build_deps: Vec<String>,
    pub pkgbreak: Vec<PkgStmt>,
    pub pkgrecom: Vec<String>,
    pub provides: Vec<String>,
}

/// The mathematical value of a `Package`.
pub struct PackageV {
    pub name: Seq<char>,
    pub version: Seq<char>,
    pub desc: Seq<char>,
    pub path: Seq<char>,
    pub section: Seq<char>,
    pub deps: Seq<Seq<char>>,
    pub build_deps: Seq<Seq<char>>,
    pub pkgbreak: Seq<PkgStmtV>,
    pub pkgrecom: Seq<Seq<char>>,
    pub provides: Seq<Seq<char>>,
}

impl View for Package {
    type V = PackageV;

    open spec fn view(&self) -> PackageV {
        PackageV {
            name: self.name@,
            version: self.version@,
            desc: self.desc@,
            path: self.path@,
            section: self.section@,
            deps: views_of(self.deps@),
            build_deps: views_of(self.build_deps@),
            pkgbreak: stmts_view(self.pkgbreak@),
            pkgrecom: views_of(self.pkgrecom@),
            provides: views_of(self.provides@),
        }
    }
}

/// One immediate subdirectory of a unit, with the text of its `defines`
/// file where that file exists.
#[derive(Debug, Clone)]
pub struct SubUnit {
    pub defines_text: Option<String>,
}

pub struct SubUnitV {
    pub defines_text: Option<Seq<char>>,
}

impl View for SubUnit {
    type V = SubUnitV;

    open spec fn view(&self) -> SubUnitV {
        SubUnitV {
            defines_text: match self.defines_text {
                Some(ref t) => Some(t@),
                None => None,
            },
        }
    }
}

/// One second-level directory of the package tree as the walk sees it: its
/// path as displayed (root prefix included), its tree-relative path, its
/// directory name, the text of its `spec` file and of its
/// `autobuild/defines` file where those exist, and its immediate
/// subdirectories.
#[derive(Debug, Clone)]
pub struct UnitEntry {
    pub full_path: String,
    pub rel_path: String,
    pub name: String,
    pub spec_text: Option<String>,
    pub defines_text: Option<String>,
    pub subunits: Vec<SubUnit>,
}

pub struct UnitEntryV {
    pub full_path: Seq<char>,
    pub rel_path: Seq<char>,
    pub name: Seq<char>,
    pub spec_text: Option<Seq<char>>,
    pub defines_text: Option<Seq<char>>,
    pub subunits: Seq<SubUnitV>,
}

impl View for UnitEntry {
    type V = UnitEntryV;

    open spec fn view(&self) -> UnitEntryV {
        UnitEntryV {
            full_path: self.full_path@,
            rel_path: self.rel_path@,
            name: self.name@,
            spec_text: match self.spec_text {
                Some(ref t) => Some(t@),
                None => None,
            },
            defines_text: match self.defines_text {
                Some(ref t) => Some(t@),
                None => None,
            },
            subunits: self.subunits@.map_values(|u: SubUnit| u@),
        }
    }
}

/// Why a walk failed: a unit whose recipe declared no package name, or one
/// that declared no description.
#[derive(Debug, Clone, PartialEq, Eq)]
pub enum WalkError {
    MissingName(String),
    MissingDesc,
}

pub enum WalkErrorV {
    MissingName(Seq<char>),
    MissingDesc,
}

impl View for WalkError {
    type V = WalkErrorV;

    open spec fn view(&self) -> WalkErrorV {
        match self {
            WalkError::MissingName(ref n) => WalkErrorV::MissingName(n@),
            WalkError::MissingDesc => WalkErrorV::MissingDesc,
        }
    }
}

impl WalkError {
    pub open spec fn spec_message(&self) -> Seq<char> {
        match self {
            WalkError::MissingName(n) => "Failed to get pkg name: "@ + n@,
            WalkError::MissingDesc => "Failed to get pkg desc"@,
        }
    }

    /// The failure message as the service logs it.
    pub fn message(&self) -> (r: String)
        ensures
            r@ == self.spec_message(),
    {
        match self {
            WalkError::MissingName(n) => {
                let mut s = String::from_str("Failed to get pkg name: ");
                s.append(n.as_str());
                s
            },
            WalkError::MissingDesc => String::from_str("Failed to get pkg desc"),
        }
    }
}

// ---------------------------------------------------------------------------
// What one walk yields, as a function of the tree
// ---------------------------------------------------------------------------

/// A unit whose displayed path holds a version-control metadata segment or
/// the reserved "groups" segment is never visited.
pub open spec fn skip_entry(e: UnitEntryV) -> bool {
    contains_sub(e.full_path, ".git"@) || contains_sub(e.full_path, "groups"@)
}

/// The version accumulator a unit's `spec` file seeds: VER, then `-REL`,
/// each only where declared.
pub open spec fn seed_ver(m: Map<Seq<char>, Seq<char>>) -> Seq<char> {
    (if m.contains_key("VER"@) {
        m["VER"@]
    } else {
        Seq::empty()
    }) + (if m.contains_key("REL"@) {
        seq!['-'] + m["REL"@]
    } else {
        Seq::empty()
    })
}

/// The context and version accumulator a unit starts from: what its `spec`
/// file declares, or nothing where there is no `spec` file.
pub open spec fn unit_seed(e: UnitEntryV) -> (Map<Seq<char>, Seq<char>>, Seq<char>) {
    match e.spec_text {
        Some(t) => {
            let m = recipe_ctx(t, Map::empty());
            (m, seed_ver(m))
        },
        None => (Map::empty(), Seq::empty()),
    }
}

pub open spec fn pkg_of(d: DefinesV, path: Seq<char>) -> PackageV {
    PackageV {
        name: d.name->0,
        version: d.ver,
        desc: d.desc->0,
        path,
        section: d.section,
        deps: d.deps,
        build_deps: d.build_deps,
        pkgbreak: d.pkgbreak,
        pkgrecom: d.pkgrecom,
        provides: d.provides,
    }
}

/// One extracted bundle becomes a record, or the unit's hard failure: no
/// name first, then no description.
pub open spec fn unit_result(d: DefinesV, unit_name: Seq<char>, path: Seq<char>) -> Result<
    PackageV,
    WalkErrorV,
> {
    if d.name is None {
        Result::Err(WalkErrorV::MissingName(unit_name))
    } else if d.desc is None {
        Result::Err(WalkErrorV::MissingDesc)
    } else {
        Result::Ok(pkg_of(d, path))
    }
}

/// A meta-package's sub-units, each worked on a fresh copy of the seeded
/// context and version accumulator; a subdirectory without a `defines` file
/// is silently skipped, and every emitted record shares the parent's path.
pub open spec fn subs_at(
    e: UnitEntryV,
    m: Map<Seq<char>, Seq<char>>,
    v: Seq<char>,
    j: int,
    acc: Seq<PackageV>,
) -> Result<Seq<PackageV>, WalkErrorV>
    decreases e.subunits.len() - j,
{
    if j < 0 || j >= e.subunits.len() {
        Result::Ok(acc)
    } else {
        match e.subunits[j].defines_text {
            None => subs_at(e, m, v, j + 1, acc),
            Some(t) => {
                let d = extract(recipe_ctx(t, m), v);
                match unit_result(d, e.name, e.rel_path) {
                    Result::Err(x) => Result::Err(x),
                    Result::Ok(p) => subs_at(e, m, v, j + 1, acc.push(p)),
                }
            },
        }
    }
}

/// What one unit contributes: nothing where it is skipped, one record where
/// it carries `autobuild/defines` itself, its sub-units' records otherwise.
pub open spec fn unit_packages(e: UnitEntryV) -> Result<Seq<PackageV>, WalkErrorV> {
    if skip_entry(e) {
        Result::Ok(Seq::empty())
    } else {
        let m = unit_seed(e).0;
        let v = unit_seed(e).1;
        match e.defines_text {
            Some(t) => {
                let d = extract(recipe_ctx(t, m), v);
                match unit_result(d, e.name, e.rel_path) {
                    Result::Err(x) => Result::Err(x),
                    Result::Ok(p) => Result::Ok(seq![p]),
                }
            },
            None => subs_at(e, m, v, 0, Seq::empty()),
        }
    }
}

pub open spec fn walk_at(es: Seq<UnitEntryV>, i: int, acc: Seq<PackageV>) -> Result<
    Seq<PackageV>,
    WalkErrorV,
>
    decreases es.len() - i,
{
    if i < 0 || i >= es.len() {
        Result::Ok(acc)
    } else {
        match unit_packages(es[i]) {
            Result::Err(x) => Result::Err(x),
            Result::Ok(ps) => walk_at(es, i + 1, acc + ps),
        }
    }
}

/// The complete record list of one walk over the tree, or its first hard
/// failure, which discards the whole cycle.
pub open spec fn collect_spec(es: Seq<UnitEntryV>) -> Result<Seq<PackageV>, WalkErrorV> {
    walk_at(es, 0, Seq::empty())
}

pub open spec fn entries_view(es: Seq<UnitEntry>) -> Seq<UnitEntryV> {
    es.map_values(|e: UnitEntry| e@)
}

pub open spec fn pkgs_view(ps: Seq<Package>) -> Seq<PackageV> {
    ps.map_values(|p: Package| p@)
}

// ---------------------------------------------------------------------------
// Executable walk
// ---------------------------------------------------------------------------

fn pack(d: Defines, unit_name: &String, path: &String) -> (r: Result<Package, WalkError>)
    ensures
        (r is Ok) == (unit_result(d@, unit_name@, path@) is Ok),
        r is Ok ==> r->Ok_0@ == unit_result(d@, unit_name@, path@)->Ok_0,
        r is Err ==> r->Err_0@ == unit_result(d@, unit_name@, path@)->Err_0,
{
    let Defines { name, ver, section, desc, deps, build_deps, pkgbreak, pkgrecom, provides } = d;
    match name {
        None => Result::Err(WalkError::MissingName(unit_name.clone())),
        Some(nm) => match desc {
            None => Result::Err(WalkError::MissingDesc),
            Some(dc) => Result::Ok(
                Package {
                    name: nm,
                    version: ver,
                    desc: dc,
                    path: path.clone(),
                    section,
                    deps,
                    build_deps,
                    pkgbreak,
                    pkgrecom,
                    provides,
                },
            ),
        },
    }
}

fn process_unit(e: &UnitEntry, res: &mut Vec<Package>) -> (r: Option<WalkError>)
    ensures
        (r is None) == (unit_packages(e@) is Ok),
        r is None ==> pkgs_view(final(res)@) == pkgs_view(old(res)@) + unit_packages(e@)->Ok_0,
        r is Some ==> r->0@ == unit_packages(e@)->Err_0,
{
    let ghost base = pkgs_view(old(res)@);
    if contains_str(e.full_path.as_str(), ".git") || contains_str(e.full_path.as_str(), "groups")
        {
        proof {
            assert(base + Seq::<PackageV>::empty() =~= base);
        }
        return None;
    }
    let mut ctx = ParseContext::new();
    let mut ver = String::new();
    match &e.spec_text {
        Some(t) => {
            parse_recipe(t.as_str(), &mut ctx);
            match ctx.get("VER") {
                Some(v) => ver.append(v.as_str()),
                None => {},
            }
            match ctx.get("REL") {
                Some(v) => {
                    push_char(&mut ver, '-');
                    ver.append(v.as_str());
                },
                None => {},
            }
            proof {
                assert(ver@ =~= seed_ver(ctx@));
            }
        },
        None => {},
    }
    let ghost m = ctx@;
    let ghost v = ver@;
    proof {
        assert(unit_seed(e@) == (m, v));
    }
    match &e.defines_text {
        Some(t) => {
            let d = parse_defines(t.as_str(), &mut ctx, &mut ver);
            match pack(d, &e.name, &e.rel_path) {
                Result::Ok(p) => {
                    let ghost pv = p@;
                    res.push(p);
                    proof {
                        assert(pkgs_view(res@) =~= base.push(pv));
                        assert(base + seq![pv] =~= base.push(pv));
                    }
                    None
                },
                Result::Err(x) => Some(x),
            }
        },
        None => {
            let ns = e.subunits.len();
            let mut j: usize = 0;
            let ghost mut lacc: Seq<PackageV> = Seq::empty();
            while j < ns
                invariant
                    j <= ns,
                    ns == e.subunits@.len(),
                    ctx.wf(),
                    m == ctx@,
                    v == ver@,
                    !skip_entry(e@),
                    e@.defines_text is None,
                    unit_seed(e@) == (m, v),
                    pkgs_view(res@) == base + lacc,
                    subs_at(e@, m, v, 0, Seq::empty()) == subs_at(e@, m, v, j as int, lacc),
                decreases ns - j,
            {
                let ghost j0 = j as int;
                let ghost lacc0 = lacc;
                proof {
                    assert(e@.subunits[j0] == e.subunits@[j0]@);
                }
                match &e.subunits[j].defines_text {
                    Some(t) => {
                        let mut ctx2 = ctx.duplicate();
                        let mut ver2 = ver.clone();
                        let d = parse_defines(t.as_str(), &mut ctx2, &mut ver2);
                        match pack(d, &e.name, &e.rel_path) {
                            Result::Ok(p) => {
                                let ghost pv = p@;
                                res.push(p);
                                proof {
                                    lacc = lacc.push(pv);
                                    assert(pkgs_view(res@) =~= (base + lacc0).push(pv));
                                    assert((base + lacc0).push(pv) =~= base + lacc0.push(pv));
                                }
                            },
                            Result::Err(x) => {
                                proof {
                                    assert(subs_at(e@, m, v, j0, lacc0) == Result::<
                                        Seq<PackageV>,
                                        WalkErrorV,
                                    >::Err(x@));
                                }
                                return Some(x);
                            },
                        }
                    },
                    None => {},
                }
                j += 1;
            }
            proof {
                assert(subs_at(e@, m, v, ns as int, lacc) == Result::<
                    Seq<PackageV>,
                    WalkErrorV,
                >::Ok(lacc));
            }
            None
        },
    }
}

/// One full walk over the modelled tree: every record discovered, in
/// discovery order, or the first unit whose name or description is missing,
/// which makes the whole cycle's results unusable.
pub fn collect_packages(entries: &Vec<UnitEntry>) -> (r: Result<Vec<Package>, WalkError>)
    ensures
        (r is Ok) == (collect_spec(entries_view(entries@)) is Ok),
        r is Ok ==> pkgs_view(r->Ok_0@) == collect_spec(entries_view(entries@))->Ok_0,
        r is Err ==> r->Err_0@ == collect_spec(entries_view(entries@))->Err_0,
{
    let ghost ev = entries_view(entries@);
    let mut res: Vec<Package> = Vec::new();
    let n = entries.len();
    let mut i: usize = 0;
    proof {
        assert(pkgs_view(res@) =~= Seq::<PackageV>::empty());
    }
    while i < n
        invariant
            i <= n,
            n == entries@.len(),
            ev == entries_view(entries@),
            collect_spec(ev) == walk_at(ev, i as int, pkgs_view(res@)),
        decreases n - i,
    {
        let ghost i0 = i as int;
        let ghost acc0 = pkgs_view(res@);
        proof {
            assert(ev[i0] == entries@[i0]@);
        }
        match process_unit(&entries[i], &mut res) {
            None => {
                proof {
                    assert(walk_at(ev, i0, acc0) == walk_at(
                        ev,
                        i0 + 1,
                        acc0 + unit_packages(ev[i0])->Ok_0,
                    ));
                }
            },
            Some(x) => {
                proof {
                    assert(walk_at(ev, i0, acc0) == Result::<Seq<PackageV>, WalkErrorV>::Err(x@));
                }
                return Result::Err(x);
            },
        }
        i += 1;
    }
    Result::Ok(res)
}

// ---------------------------------------------------------------------------
// Laws of the walk
// ---------------------------------------------------------------------------

/// Idempotence: two walks over an unchanged tree yield identical records.
pub proof fn lemma_walk_idempotent(a: Seq<UnitEntryV>, b: Seq<UnitEntryV>)
    requires
        a == b,
    ensures
        collect_spec(a) == collect_spec(b),
{
}

proof fn lemma_walk_shift(es: Seq<UnitEntryV>, i: int, j: int, acc: Seq<PackageV>)
    requires
        0 <= i < es.len(),
        i <= j <= es.len() - 1,
    ensures
        walk_at(es, j + 1, acc) == walk_at(es.remove(i), j, acc),
    decreases es.len() - j,
{
    let r = es.remove(i);
    if j >= r.len() {
        assert(walk_at(es, j + 1, acc) == Result::<Seq<PackageV>, WalkErrorV>::Ok(acc));
        assert(walk_at(r, j, acc) == Result::<Seq<PackageV>, WalkErrorV>::Ok(acc));
    } else {
        assert(r[j] == es[j + 1]);
        match unit_packages(es[j + 1]) {
            Result::Err(x) => {},
            Result::Ok(ps) => {
                lemma_walk_shift(es, i, j + 1, acc + ps);
            },
        }
    }
}

proof fn lemma_walk_skip_prefix(es: Seq<UnitEntryV>, i: int, j: int, acc: Seq<PackageV>)
    requires
        0 <= j <= i < es.len(),
        skip_entry(es[i]),
    ensures
        walk_at(es, j, acc) == walk_at(es.remove(i), j, acc),
    decreases i - j,
{
    let r = es.remove(i);
    if j == i {
        assert(unit_packages(es[i]) == Result::<Seq<PackageV>, WalkErrorV>::Ok(
            Seq::<PackageV>::empty(),
        ));
        assert(acc + Seq::<PackageV>::empty() =~= acc);
        lemma_walk_shift(es, i, i, acc);
    } else {
        assert(r[j] == es[j]);
        match unit_packages(es[j]) {
            Result::Err(x) => {},
            Result::Ok(ps) => {
                lemma_walk_skip_prefix(es, i, j + 1, acc + ps);
            },
        }
    }
}

/// A unit whose displayed path holds a version-control metadata segment or
/// the reserved "groups" segment is never visited as a package unit: the
/// walk over the tree with it equals the walk over the tree without it.
pub proof fn lemma_skipped_entry_invisible(es: Seq<UnitEntryV>, i: int)
    requires
        0 <= i < es.len(),
        skip_entry(es[i]),
    ensures
        collect_spec(es) == collect_spec(es.remove(i)),
{
    lemma_walk_skip_prefix(es, i, 0, Seq::empty());
}

} // verus!
