use crate::text::push_char;
use vstd::prelude::*;
use vstd::string::StrSliceExecFns;

verus! {

/// One dependency-like token decomposed into a name, a relational operator
/// (possibly empty, drawn from `<`, `>`, `=`) and a version.
#[derive(Debug, Clone, PartialEq, Eq)]
pub struct PkgStmt {
    pub name: String,
    pub comp: String,
    pub version: String,
}

/// The mathematical value of a `PkgStmt`.
pub struct PkgStmtV {
    pub name: Seq<char>,
    pub comp: Seq<char>,
    pub version: Seq<char>,
}

impl View for PkgStmt {
    type V = PkgStmtV;

    open spec fn view(&self) -> PkgStmtV {
        PkgStmtV { name: self.name@, comp: self.comp@, version: self.version@ }
    }
}

pub open spec fn is_comp(c: char) -> bool {
    c == '>' || c == '<' || c == '='
}

/// True exactly when `c` is one of the three comparator characters that a
/// dependency token may carry.
pub fn is_comp_symbol(c: &char) -> (r: bool)
    ensures
        r == is_comp(*c),
{
    *c == '>' || *c == '<' || *c == '='
}

/// One left-to-right pass over the token with three accumulators and the
/// "in version phase" flag.  A comparator character always goes to the
/// comparator accumulator, even when it turns up after the version phase has
/// begun; any other character goes to the name until the first comparator has
/// been seen, and to the version from then on.
pub open spec fn scan_at(
    s: Seq<char>,
    i: int,
    name: Seq<char>,
    comp: Seq<char>,
    ver: Seq<char>,
    ed: bool,
) -> PkgStmtV
    decreases s.len() - i,
{
    if i < 0 || i >= s.len() {
        PkgStmtV { name, comp, version: ver }
    } else {
        let c = s[i];
        if is_comp(c) {
            scan_at(s, i + 1, name, comp.push(c), ver, ed)
        } else if ed || comp.len() > 0 {
            scan_at(s, i + 1, name, comp, ver.push(c), true)
        } else {
            scan_at(s, i + 1, name.push(c), comp, ver, false)
        }
    }
}

/// What scanning one whole token yields: a leading `=` is dropped before the
/// scan begins.
pub open spec fn parse_stmt(tok: Seq<char>) -> PkgStmtV {
    let t = if tok.len() > 0 && tok[0] == '=' {
        tok.drop_first()
    } else {
        tok
    };
    scan_at(t, 0, Seq::empty(), Seq::empty(), Seq::empty(), false)
}

impl PkgStmt {
    /// Decomposes one token.  Total: every input yields a statement, with no
    /// check that the comparator is a meaningful operator or that the version
    /// looks like a version.
    pub fn from(value: &str) -> (r: PkgStmt)
        ensures
            r@ == parse_stmt(value@),
    {
        let n = value.unicode_len();
        let t: &str = if n > 0 && value.get_char(0) == '=' {
            value.substring_char(1, n)
        } else {
            value
        };
        proof {
            if value@.len() > 0 && value@[0] == '=' {
                assert(t@ =~= value@.drop_first());
            }
        }
        let m = t.unicode_len();
        let mut name = String::new();
        let mut comp = String::new();
        let mut ver = String::new();
        let mut ed = false;
        let mut i: usize = 0;
        while i < m
            invariant
                i <= m,
                m == t@.len(),
                parse_stmt(value@) == scan_at(t@, i as int, name@, comp@, ver@, ed),
            decreases m - i,
        {
            let ghost i0 = i as int;
            let ghost name0 = name@;
            let ghost comp0 = comp@;
            let ghost ver0 = ver@;
            let ghost ed0 = ed;
            let c = t.get_char(i);
            if is_comp_symbol(&c) {
                push_char(&mut comp, c);
                proof {
                    assert(scan_at(t@, i0, name0, comp0, ver0, ed0) == scan_at(
                        t@,
                        i0 + 1,
                        name0,
                        comp0.push(t@[i0]),
                        ver0,
                        ed0,
                    ));
                }
            } else if ed {
                push_char(&mut ver, c);
                proof {
                    assert(scan_at(t@, i0, name0, comp0, ver0, ed0) == scan_at(
                        t@,
                        i0 + 1,
                        name0,
                        comp0,
                        ver0.push(t@[i0]),
                        true,
                    ));
                }
            } else if !comp.as_str().is_empty() {
                ed = true;
                push_char(&mut ver, c);
                proof {
                    assert(scan_at(t@, i0, name0, comp0, ver0, ed0) == scan_at(
                        t@,
                        i0 + 1,
                        name0,
                        comp0,
                        ver0.push(t@[i0]),
                        true,
                    ));
                }
            } else {
                push_char(&mut name, c);
                proof {
                    assert(scan_at(t@, i0, name0, comp0, ver0, ed0) == scan_at(
                        t@,
                        i0 + 1,
                        name0.push(t@[i0]),
                        comp0,
                        ver0,
                        false,
                    ));
                }
            }
            i += 1;
        }
        PkgStmt { name, comp, version: ver }
    }
}

} // verus!
