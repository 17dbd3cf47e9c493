use crate::context::ParseContext;
use crate::recipe::parse_recipe;
use crate::recipe::recipe_ctx;
use crate::stmt::parse_stmt;
use crate::stmt::PkgStmt;
use crate::stmt::PkgStmtV;
use crate::text::remove_char;
use crate::text::split_ws;
use crate::text::split_ws_str;
use crate::text::str_eq;
use crate::text::strip_char;
use crate::text::trim;
use crate::text::trim_str;
use crate::text::views_of;
use vstd::prelude::*;
use vstd::string::StringExecFns;

verus! {

/// The fields extracted from one recipe unit's context.  Name and
/// description stay optional here: their absence is the caller's hard
/// failure, not this extractor's.
pub struct Defines {
    pub name: Option<String>,
    pub ver: String,
    pub section: String,
    pub desc: Option<String>,
    pub deps: Vec<String>,
    pub build_deps: Vec<String>,
    pub pkgbreak: Vec<PkgStmt>,
    pub pkgrecom: Vec<String>,
    pub provides: Vec<String>,
}

/// The mathematical value of a `Defines`.
pub struct DefinesV {
    pub name: Option<Seq<char>>,
    pub ver: Seq<char>,
    pub section: Seq<char>,
    pub desc: Option<Seq<char>>,
    pub deps: Seq<Seq<char>>,
    pub build_deps: Seq<Seq<char>>,
    pub pkgbreak: Seq<PkgStmtV>,
    pub pkgrecom: Seq<Seq<char>>,
    pub provides: Seq<Seq<char>>,
}

pub open spec fn stmts_view(v: Seq<PkgStmt>) -> Seq<PkgStmtV> {
    v.map_values(|p: PkgStmt| p@)
}

pub open spec fn opt_view(v: Option<String>) -> Option<Seq<char>> {
    match v {
        Some(s) => Some(s@),
        None => None,
    }
}

impl View for Defines {
    type V = DefinesV;

    open spec fn view(&self) -> DefinesV {
        DefinesV {
            name: opt_view(self.name),
            ver: self.ver@,
            section: self.section@,
            desc: opt_view(self.desc),
            deps: views_of(self.deps@),
            build_deps: views_of(self.build_deps@),
            pkgbreak: stmts_view(self.pkgbreak@),
            pkgrecom: views_of(self.pkgrecom@),
            provides: views_of(self.provides@),
        }
    }
}

// ---------------------------------------------------------------------------
// The extraction rules, field by field
// ---------------------------------------------------------------------------

/// The package name: the declared value with `=` removed and surrounding
/// white space trimmed.
pub open spec fn opt_name(m: Map<Seq<char>, Seq<char>>) -> Option<Seq<char>> {
    if m.contains_key("PKGNAME"@) {
        Some(trim(remove_char(m["PKGNAME"@], '=')))
    } else {
        None
    }
}

/// The description, normalized like the name.
pub open spec fn opt_desc(m: Map<Seq<char>, Seq<char>>) -> Option<Seq<char>> {
    if m.contains_key("PKGDES"@) {
        Some(trim(remove_char(m["PKGDES"@], '=')))
    } else {
        None
    }
}

/// The version with any declared epoch put in front as `epoch:`.
pub open spec fn epoch_ver(m: Map<Seq<char>, Seq<char>>, v: Seq<char>) -> Seq<char> {
    if m.contains_key("PKGEPOCH"@) {
        trim(remove_char(m["PKGEPOCH"@], '=')) + seq![':'] + v
    } else {
        v
    }
}

/// The section, or the empty string where none was declared.
pub open spec fn section_of(m: Map<Seq<char>, Seq<char>>) -> Seq<char> {
    if m.contains_key("PKGSEC"@) {
        remove_char(trim(m["PKGSEC"@]), '=')
    } else {
        Seq::empty()
    }
}

/// White-space tokens of a list value with bare continuation markers
/// dropped and `=` removed from each survivor.
pub open spec fn clean_toks_at(ts: Seq<Seq<char>>, i: int, acc: Seq<Seq<char>>) -> Seq<Seq<char>>
    decreases ts.len() - i,
{
    if i < 0 || i >= ts.len() {
        acc
    } else {
        clean_toks_at(
            ts,
            i + 1,
            if ts[i] == "\\"@ {
                acc
            } else {
                acc.push(remove_char(ts[i], '='))
            },
        )
    }
}

pub open spec fn clean_toks(v: Seq<char>) -> Seq<Seq<char>> {
    clean_toks_at(split_ws(trim(v)), 0, Seq::empty())
}

/// Like `clean_toks` but each survivor kept as it stands.
pub open spec fn raw_toks_at(ts: Seq<Seq<char>>, i: int, acc: Seq<Seq<char>>) -> Seq<Seq<char>>
    decreases ts.len() - i,
{
    if i < 0 || i >= ts.len() {
        acc
    } else {
        raw_toks_at(
            ts,
            i + 1,
            if ts[i] == "\\"@ {
                acc
            } else {
                acc.push(ts[i])
            },
        )
    }
}

pub open spec fn raw_toks(v: Seq<char>) -> Seq<Seq<char>> {
    raw_toks_at(split_ws(trim(v)), 0, Seq::empty())
}

/// Like `raw_toks` but each survivor decomposed as a comparator statement.
pub open spec fn break_toks_at(ts: Seq<Seq<char>>, i: int, acc: Seq<PkgStmtV>) -> Seq<PkgStmtV>
    decreases ts.len() - i,
{
    if i < 0 || i >= ts.len() {
        acc
    } else {
        break_toks_at(
            ts,
            i + 1,
            if ts[i] == "\\"@ {
                acc
            } else {
                acc.push(parse_stmt(ts[i]))
            },
        )
    }
}

pub open spec fn break_toks(v: Seq<char>) -> Seq<PkgStmtV> {
    break_toks_at(split_ws(trim(v)), 0, Seq::empty())
}

pub open spec fn list_or_empty(m: Map<Seq<char>, Seq<char>>, key: Seq<char>) -> Seq<Seq<char>> {
    if m.contains_key(key) {
        clean_toks(m[key])
    } else {
        Seq::empty()
    }
}

/// Everything the extractor draws from one populated context and the
/// incoming version accumulator.
pub open spec fn extract(m: Map<Seq<char>, Seq<char>>, v: Seq<char>) -> DefinesV {
    DefinesV {
        name: opt_name(m),
        ver: epoch_ver(m, v),
        section: section_of(m),
        desc: opt_desc(m),
        deps: list_or_empty(m, "PKGDEP"@),
        build_deps: list_or_empty(m, "BUILDDEP"@),
        pkgbreak: if m.contains_key("PKGBREAK"@) {
            break_toks(m["PKGBREAK"@])
        } else {
            Seq::empty()
        },
        pkgrecom: list_or_empty(m, "PKGRECOM"@),
        provides: if m.contains_key("PKGPROV"@) {
            raw_toks(m["PKGPROV"@])
        } else {
            Seq::empty()
        },
    }
}

// ---------------------------------------------------------------------------
// Executable extraction
// ---------------------------------------------------------------------------

fn clean_list(v: &str) -> (r: Vec<String>)
    ensures
        views_of(r@) == clean_toks(v@),
{
    let t = trim_str(v);
    let ts = split_ws_str(t.as_str());
    let ghost tsv = split_ws(trim(v@));
    let mut out: Vec<String> = Vec::new();
    let n = ts.len();
    let mut i: usize = 0;
    proof {
        assert(views_of(out@) =~= Seq::<Seq<char>>::empty());
    }
    while i < n
        invariant
            i <= n,
            n == ts@.len(),
            views_of(ts@) == tsv,
            clean_toks(v@) == clean_toks_at(tsv, i as int, views_of(out@)),
        decreases n - i,
    {
        let ghost i0 = i as int;
        let ghost acc0 = views_of(out@);
        proof {
            assert(tsv[i0] == ts@[i0]@);
        }
        if !str_eq(ts[i].as_str(), "\\") {
            let c = strip_char(ts[i].as_str(), '=');
            let ghost cv = c@;
            out.push(c);
            proof {
                assert(views_of(out@) =~= acc0.push(cv));
            }
        }
        proof {
            assert(clean_toks_at(tsv, i0, acc0) == clean_toks_at(
                tsv,
                i0 + 1,
                if tsv[i0] == "\\"@ {
                    acc0
                } else {
                    acc0.push(remove_char(tsv[i0], '='))
                },
            ));
        }
        i += 1;
    }
    out
}

fn raw_list(v: &str) -> (r: Vec<String>)
    ensures
        views_of(r@) == raw_toks(v@),
{
    let t = trim_str(v);
    let ts = split_ws_str(t.as_str());
    let ghost tsv = split_ws(trim(v@));
    let mut out: Vec<String> = Vec::new();
    let n = ts.len();
    let mut i: usize = 0;
    proof {
        assert(views_of(out@) =~= Seq::<Seq<char>>::empty());
    }
    while i < n
        invariant
            i <= n,
            n == ts@.len(),
            views_of(ts@) == tsv,
            raw_toks(v@) == raw_toks_at(tsv, i as int, views_of(out@)),
        decreases n - i,
    {
        let ghost i0 = i as int;
        let ghost acc0 = views_of(out@);
        proof {
            assert(tsv[i0] == ts@[i0]@);
        }
        if !str_eq(ts[i].as_str(), "\\") {
            let c = ts[i].clone();
            let ghost cv = c@;
            out.push(c);
            proof {
                assert(views_of(out@) =~= acc0.push(cv));
            }
        }
        proof {
            assert(raw_toks_at(tsv, i0, acc0) == raw_toks_at(
                tsv,
                i0 + 1,
                if tsv[i0] == "\\"@ {
                    acc0
                } else {
                    acc0.push(tsv[i0])
                },
            ));
        }
        i += 1;
    }
    out
}

fn break_list(v: &str) -> (r: Vec<PkgStmt>)
    ensures
        stmts_view(r@) == break_toks(v@),
{
    let t = trim_str(v);
    let ts = split_ws_str(t.as_str());
    let ghost tsv = split_ws(trim(v@));
    let mut out: Vec<PkgStmt> = Vec::new();
    let n = ts.len();
    let mut i: usize = 0;
    proof {
        assert(stmts_view(out@) =~= Seq::<PkgStmtV>::empty());
    }
    while i < n
        invariant
            i <= n,
            n == ts@.len(),
            views_of(ts@) == tsv,
            break_toks(v@) == break_toks_at(tsv, i as int, stmts_view(out@)),
        decreases n - i,
    {
        let ghost i0 = i as int;
        let ghost acc0 = stmts_view(out@);
        proof {
            assert(tsv[i0] == ts@[i0]@);
        }
        if !str_eq(ts[i].as_str(), "\\") {
            let p = PkgStmt::from(ts[i].as_str());
            let ghost pv = p@;
            out.push(p);
            proof {
                assert(stmts_view(out@) =~= acc0.push(pv));
            }
        }
        proof {
            assert(break_toks_at(tsv, i0, acc0) == break_toks_at(
                tsv,
                i0 + 1,
                if tsv[i0] == "\\"@ {
                    acc0
                } else {
                    acc0.push(parse_stmt(tsv[i0]))
                },
            ));
        }
        i += 1;
    }
    out
}

/// Parses one unit-level recipe text into the context, then extracts every
/// field.  The version accumulator is rewritten in place where an epoch is
/// declared, and the extracted bundle carries its final value.
pub fn parse_defines(text: &str, context: &mut ParseContext, ver: &mut String) -> (r: Defines)
    requires
        old(context).wf(),
    ensures
        final(context).wf(),
        final(context)@ == recipe_ctx(text@, old(context)@),
        r@ == extract(final(context)@, old(ver)@),
        final(ver)@ == r@.ver,
{
    parse_recipe(text, context);
    let name = match context.get("PKGNAME") {
        Some(v) => {
            let s = strip_char(v.as_str(), '=');
            Some(trim_str(s.as_str()))
        },
        None => None,
    };
    match context.get("PKGEPOCH") {
        Some(v) => {
            let s = strip_char(v.as_str(), '=');
            let mut nv = trim_str(s.as_str());
            nv.append(":");
            nv.append(ver.as_str());
            proof {
                reveal_strlit(":");
                assert(":"@ =~= seq![':']);
            }
            *ver = nv;
        },
        None => {},
    }
    let desc = match context.get("PKGDES") {
        Some(v) => {
            let s = strip_char(v.as_str(), '=');
            Some(trim_str(s.as_str()))
        },
        None => None,
    };
    let deps = match context.get("PKGDEP") {
        Some(v) => clean_list(v.as_str()),
        None => Vec::new(),
    };
    let build_deps = match context.get("BUILDDEP") {
        Some(v) => clean_list(v.as_str()),
        None => Vec::new(),
    };
    let pkgbreak = match context.get("PKGBREAK") {
        Some(v) => break_list(v.as_str()),
        None => Vec::new(),
    };
    let pkgrecom = match context.get("PKGRECOM") {
        Some(v) => clean_list(v.as_str()),
        None => Vec::new(),
    };
    let provides = match context.get("PKGPROV") {
        Some(v) => raw_list(v.as_str()),
        None => Vec::new(),
    };
    let section = match context.get("PKGSEC") {
        Some(v) => {
            let t = trim_str(v.as_str());
            strip_char(t.as_str(), '=')
        },
        None => String::new(),
    };
    let r = Defines {
        name,
        ver: ver.clone(),
        section,
        desc,
        deps,
        build_deps,
        pkgbreak,
        pkgrecom,
        provides,
    };
    proof {
        assert(views_of(Seq::<String>::empty()) =~= Seq::<Seq<char>>::empty());
        assert(stmts_view(Seq::<PkgStmt>::empty()) =~= Seq::<PkgStmtV>::empty());
    }
    r
}

} // verus!
