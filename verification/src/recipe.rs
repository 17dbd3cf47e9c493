use crate::context::ParseContext;
use crate::text::find_char;
use crate::text::find_from;
use crate::text::has_char_in;
use crate::text::has_prefix;
use crate::text::is_space;
use crate::text::is_space_char;
use crate::text::push_char;
use crate::text::remove_char;
use crate::text::split_nl;
use crate::text::split_nl_str;
use crate::text::strip_char;
use crate::text::strip_prefix_str;
use crate::text::views_of;
use vstd::prelude::*;
use vstd::string::StrSliceExecFns;
use vstd::string::StringExecFns;

verus! {

// ---------------------------------------------------------------------------
// The strict tier: a structured-assignment grammar.  Each logical line either
// declares `KEY=value`, is blank, or is a comment; a value may be quoted as a
// whole; a physical line whose last character is a backslash continues onto
// the next one, the newline read as a plain space so that list values keep
// their bare backslash continuation tokens.  Anything else is a grammar
// error, and the caller falls back to the line-prefix scanner below.
// ---------------------------------------------------------------------------

/// One declaration of the strict grammar.
#[derive(Debug, Clone, PartialEq, Eq)]
pub struct Decl {
    pub key: String,
    pub val: String,
}

/// The mathematical value of a `Decl`.
pub struct DeclV {
    pub key: Seq<char>,
    pub val: Seq<char>,
}

impl View for Decl {
    type V = DeclV;

    open spec fn view(&self) -> DeclV {
        DeclV { key: self.key@, val: self.val@ }
    }
}

pub open spec fn decls_view(v: Seq<Decl>) -> Seq<DeclV> {
    v.map_values(|d: Decl| d@)
}

/// The text with every backslash-newline pair turned into backslash-space,
/// fusing continued lines into one logical line.
pub open spec fn join_cont_at(s: Seq<char>, i: int, acc: Seq<char>) -> Seq<char>
    decreases s.len() - i,
{
    if i < 0 || i >= s.len() {
        acc
    } else if s[i] == '\\' && i + 1 < s.len() && s[i + 1] == '\n' {
        join_cont_at(s, i + 2, acc.push('\\').push(' '))
    } else {
        join_cont_at(s, i + 1, acc.push(s[i]))
    }
}

pub open spec fn join_cont(s: Seq<char>) -> Seq<char> {
    join_cont_at(s, 0, Seq::empty())
}

pub fn join_cont_str(s: &str) -> (r: String)
    ensures
        r@ == join_cont(s@),
{
    let n = s.unicode_len();
    let mut out = String::new();
    let mut i: usize = 0;
    while i < n
        invariant
            i <= n,
            n == s@.len(),
            join_cont(s@) == join_cont_at(s@, i as int, out@),
        decreases n - i,
    {
        let ghost i0 = i as int;
        let ghost o0 = out@;
        let c = s.get_char(i);
        if c == '\\' && i + 1 < n && s.get_char(i + 1) == '\n' {
            push_char(&mut out, '\\');
            push_char(&mut out, ' ');
            i += 2;
            proof {
                assert(join_cont_at(s@, i0, o0) == join_cont_at(
                    s@,
                    i0 + 2,
                    o0.push('\\').push(' '),
                ));
            }
        } else {
            push_char(&mut out, c);
            i += 1;
            proof {
                assert(join_cont_at(s@, i0, o0) == join_cont_at(s@, i0 + 1, o0.push(s@[i0])));
            }
        }
    }
    out
}

// ---------------------------------------------------------------------------
// Classifying one logical line
// ---------------------------------------------------------------------------

pub open spec fn is_key_start(c: char) -> bool {
    (0x41 <= c as u32 && c as u32 <= 0x5A) || (0x61 <= c as u32 && c as u32 <= 0x7A) || c == '_'
}

pub open spec fn is_key_char(c: char) -> bool {
    is_key_start(c) || (0x30 <= c as u32 && c as u32 <= 0x39)
}

fn is_key_start_char(c: char) -> (r: bool)
    ensures
        r == is_key_start(c),
{
    let u = c as u32;
    (0x41 <= u && u <= 0x5A) || (0x61 <= u && u <= 0x7A) || c == '_'
}

fn is_key_char_char(c: char) -> (r: bool)
    ensures
        r == is_key_char(c),
{
    let u = c as u32;
    is_key_start_char(c) || (0x30 <= u && u <= 0x39)
}

/// A declared variable name: a letter or underscore, then letters, digits
/// and underscores.
pub open spec fn valid_key(k: Seq<char>) -> bool {
    k.len() > 0 && is_key_start(k[0]) && forall|j: int| 1 <= j < k.len() ==> is_key_char(k[j])
}

fn valid_key_str(k: &str) -> (r: bool)
    ensures
        r == valid_key(k@),
{
    let n = k.unicode_len();
    if n == 0 {
        return false;
    }
    if !is_key_start_char(k.get_char(0)) {
        return false;
    }
    let mut j: usize = 1;
    while j < n
        invariant
            1 <= j <= n,
            n == k@.len(),
            is_key_start(k@[0]),
            forall|jj: int| 1 <= jj < j ==> is_key_char(k@[jj]),
        decreases n - j,
    {
        if !is_key_char_char(k.get_char(j)) {
            return false;
        }
        j += 1;
    }
    true
}

pub open spec fn has_quote_in(v: Seq<char>, a: int, b: int) -> bool {
    exists|j: int| a <= j < b && v[j] == '"'
}

/// A well-quoted value: either quote-free and kept whole, or wrapped in one
/// pair of double quotes with none inside, kept without them.  Anything else
/// is malformed quoting.
pub open spec fn unquote(v: Seq<char>) -> Option<Seq<char>> {
    if !has_quote_in(v, 0, v.len() as int) {
        Some(v)
    } else if v.len() >= 2 && v[0] == '"' && v.last() == '"' && !has_quote_in(v, 1, v.len() - 1) {
        Some(v.subrange(1, v.len() - 1))
    } else {
        None
    }
}

fn unquote_str(v: &str) -> (r: Option<String>)
    ensures
        r is Some <==> unquote(v@) is Some,
        r is Some ==> r->0@ == unquote(v@)->0,
{
    let n = v.unicode_len();
    if !has_char_in(v, '"', 0, n) {
        return Some(String::from_str(v));
    }
    if n >= 2 && v.get_char(0) == '"' && v.get_char(n - 1) == '"' && !has_char_in(v, '"', 1, n - 1)
        {
        let t = v.substring_char(1, n - 1);
        return Some(String::from_str(t));
    }
    None
}

pub open spec fn first_non_space_from(s: Seq<char>, i: int) -> int
    decreases s.len() - i,
{
    if i < 0 || i >= s.len() {
        -1
    } else if is_space(s[i]) {
        first_non_space_from(s, i + 1)
    } else {
        i
    }
}

/// What one logical line of the strict grammar is.
pub enum LineClass {
    Blank,
    Comment,
    Declares(DeclV),
    Bad,
}

/// A line of white space alone is blank; one whose first non-space character
/// is `#` is a comment; otherwise the line must be `KEY=value` with a valid
/// key and well-quoted value, and anything else is a grammar error.
pub open spec fn classify(line: Seq<char>) -> LineClass {
    let k = first_non_space_from(line, 0);
    if k < 0 {
        LineClass::Blank
    } else if line[k] == '#' {
        LineClass::Comment
    } else {
        let e = find_from(line, '=', 0);
        if e < 0 {
            LineClass::Bad
        } else {
            let key = line.take(e);
            let value = line.skip(e + 1);
            if !valid_key(key) {
                LineClass::Bad
            } else {
                match unquote(value) {
                    Some(v) => LineClass::Declares(DeclV { key, val: v }),
                    None => LineClass::Bad,
                }
            }
        }
    }
}

enum LineOut {
    Skip,
    Put(Decl),
    Bad,
}

fn classify_line(line: &str) -> (r: LineOut)
    ensures
        (r is Skip) == (classify(line@) is Blank || classify(line@) is Comment),
        (r is Bad) == (classify(line@) is Bad),
        (r is Put) == (classify(line@) is Declares),
        r is Put ==> r->Put_0@.key == classify(line@)->Declares_0.key && r->Put_0@.val == classify(
            line@,
        )->Declares_0.val,
{
    let n = line.unicode_len();
    let mut k: usize = 0;
    while k < n && is_space_char(line.get_char(k))
        invariant
            k <= n,
            n == line@.len(),
            first_non_space_from(line@, 0) == first_non_space_from(line@, k as int),
        decreases n - k,
    {
        k += 1;
    }
    if k == n {
        return LineOut::Skip;
    }
    if line.get_char(k) == '#' {
        return LineOut::Skip;
    }
    match find_char(line, '=') {
        None => LineOut::Bad,
        Some(e) => {
            proof {
                assert(find_from(line@, '=', 0) == e);
            }
            let key_s = line.substring_char(0, e);
            proof {
                assert(key_s@ =~= line@.take(e as int));
            }
            if !valid_key_str(key_s) {
                return LineOut::Bad;
            }
            let val_s = line.substring_char(e + 1, n);
            proof {
                assert(val_s@ =~= line@.skip(e + 1));
            }
            match unquote_str(val_s) {
                None => LineOut::Bad,
                Some(v) => LineOut::Put(Decl { key: String::from_str(key_s), val: v }),
            }
        },
    }
}

// ---------------------------------------------------------------------------
// The whole strict parse
// ---------------------------------------------------------------------------

pub open spec fn strict_at(ls: Seq<Seq<char>>, i: int, acc: Seq<DeclV>) -> Option<Seq<DeclV>>
    decreases ls.len() - i,
{
    if i < 0 || i >= ls.len() {
        Some(acc)
    } else {
        match classify(ls[i]) {
            LineClass::Blank => strict_at(ls, i + 1, acc),
            LineClass::Comment => strict_at(ls, i + 1, acc),
            LineClass::Declares(d) => strict_at(ls, i + 1, acc.push(d)),
            LineClass::Bad => None,
        }
    }
}

/// The declarations of the text under the strict grammar, in order of
/// appearance, or nothing where any line breaks the grammar.
pub open spec fn strict_parse(text: Seq<char>) -> Option<Seq<DeclV>> {
    strict_at(split_nl(join_cont(text)), 0, Seq::empty())
}

fn strict_decls(text: &str) -> (r: Option<Vec<Decl>>)
    ensures
        r is Some <==> strict_parse(text@) is Some,
        r is Some ==> decls_view(r->0@) == strict_parse(text@)->0,
{
    let joined = join_cont_str(text);
    let lines = split_nl_str(joined.as_str());
    let ghost ls = split_nl(join_cont(text@));
    let mut out: Vec<Decl> = Vec::new();
    let n = lines.len();
    let mut i: usize = 0;
    proof {
        assert(decls_view(out@) =~= Seq::<DeclV>::empty());
    }
    while i < n
        invariant
            i <= n,
            n == lines@.len(),
            views_of(lines@) == ls,
            strict_parse(text@) == strict_at(ls, i as int, decls_view(out@)),
        decreases n - i,
    {
        let ghost i0 = i as int;
        let ghost acc0 = decls_view(out@);
        proof {
            assert(ls[i0] == lines@[i0]@);
        }
        match classify_line(lines[i].as_str()) {
            LineOut::Skip => {
                proof {
                    assert(strict_at(ls, i0, acc0) == strict_at(ls, i0 + 1, acc0));
                }
            },
            LineOut::Bad => {
                proof {
                    assert(strict_at(ls, i0, acc0) is None);
                }
                return None;
            },
            LineOut::Put(d) => {
                let ghost dv = d@;
                out.push(d);
                proof {
                    assert(decls_view(out@) =~= acc0.push(dv));
                    assert(classify(ls[i0]) is Declares && classify(ls[i0])->Declares_0.key
                        == dv.key && classify(ls[i0])->Declares_0.val == dv.val);
                    assert(classify(ls[i0])->Declares_0 == dv);
                    assert(strict_at(ls, i0, acc0) == strict_at(ls, i0 + 1, acc0.push(dv)));
                }
            },
        }
        i += 1;
    }
    Some(out)
}

/// The context after merging the declarations in order, a later declaration
/// of a key overwriting an earlier one.
pub open spec fn merge_decls(m: Map<Seq<char>, Seq<char>>, ds: Seq<DeclV>) -> Map<
    Seq<char>,
    Seq<char>,
>
    decreases ds.len(),
{
    if ds.len() == 0 {
        m
    } else {
        merge_decls(m.insert(ds[0].key, ds[0].val), ds.drop_first())
    }
}

fn merge_into(context: &mut ParseContext, ds: &Vec<Decl>)
    requires
        old(context).wf(),
    ensures
        final(context).wf(),
        final(context)@ == merge_decls(old(context)@, decls_view(ds@)),
{
    let ghost m0 = old(context)@;
    let ghost dsv = decls_view(ds@);
    let n = ds.len();
    let mut i: usize = 0;
    proof {
        assert(dsv.skip(0) =~= dsv);
    }
    while i < n
        invariant
            i <= n,
            n == ds@.len(),
            dsv == decls_view(ds@),
            context.wf(),
            merge_decls(m0, dsv) == merge_decls(context@, dsv.skip(i as int)),
        decreases n - i,
    {
        let ghost i0 = i as int;
        let ghost mc = context@;
        context.insert(ds[i].key.clone(), ds[i].val.clone());
        proof {
            assert(dsv.skip(i0)[0] == dsv[i0]);
            assert(dsv.skip(i0).drop_first() =~= dsv.skip(i0 + 1));
            assert(merge_decls(mc, dsv.skip(i0)) == merge_decls(
                mc.insert(dsv[i0].key, dsv[i0].val),
                dsv.skip(i0 + 1),
            ));
        }
        i += 1;
    }
    proof {
        assert(dsv.skip(n as int) =~= Seq::<DeclV>::empty());
    }
}

/// Later declarations overwrite earlier ones: after a merge, a key holds
/// the value of its last declaration.
pub proof fn lemma_later_declaration_wins(m: Map<Seq<char>, Seq<char>>, ds: Seq<DeclV>, d: DeclV)
    ensures
        merge_decls(m, ds.push(d)).contains_key(d.key),
        merge_decls(m, ds.push(d))[d.key] == d.val,
    decreases ds.len(),
{
    let s1 = ds.push(d);
    if ds.len() == 0 {
        assert(s1[0] == d);
        assert(s1.drop_first() =~= Seq::<DeclV>::empty());
        assert(merge_decls(m, s1) == merge_decls(m.insert(d.key, d.val), s1.drop_first()));
        assert(merge_decls(m.insert(d.key, d.val), s1.drop_first()) == m.insert(d.key, d.val));
    } else {
        assert(s1[0] == ds[0]);
        assert(s1.drop_first() =~= ds.drop_first().push(d));
        assert(merge_decls(m, s1) == merge_decls(
            m.insert(ds[0].key, ds[0].val),
            ds.drop_first().push(d),
        ));
        lemma_later_declaration_wins(m.insert(ds[0].key, ds[0].val), ds.drop_first(), d);
    }
}

/// A key that no declaration names keeps the value it had before the merge.
pub proof fn lemma_undeclared_key_untouched(
    m: Map<Seq<char>, Seq<char>>,
    ds: Seq<DeclV>,
    k: Seq<char>,
)
    requires
        forall|i: int| 0 <= i < ds.len() ==> ds[i].key != k,
    ensures
        merge_decls(m, ds).contains_key(k) == m.contains_key(k),
        m.contains_key(k) ==> merge_decls(m, ds)[k] == m[k],
    decreases ds.len(),
{
    if ds.len() > 0 {
        assert(ds[0].key != k);
        lemma_undeclared_key_untouched(m.insert(ds[0].key, ds[0].val), ds.drop_first(), k);
    }
}

// ---------------------------------------------------------------------------
// The fallback tier: the degraded line-prefix scanner
// ---------------------------------------------------------------------------

/// The fixed field names the fallback scanner looks for.
pub open spec fn fallback_keys() -> Seq<Seq<char>> {
    seq!["VER"@, "REL"@, "PKGNAME"@, "PKGEPOCH"@, "PKGDES"@, "PKGBREAK"@, "PKGRECOM"@, "PKGPROV"@]
}

/// One key's pass over every line: any line that begins with the key itself
/// declares the key as the rest of the line with quote characters removed; a
/// later matching line overwrites an earlier one.
pub open spec fn scan_key_lines(
    key: Seq<char>,
    ls: Seq<Seq<char>>,
    j: int,
    m: Map<Seq<char>, Seq<char>>,
) -> Map<Seq<char>, Seq<char>>
    decreases ls.len() - j,
{
    if j < 0 || j >= ls.len() {
        m
    } else {
        let m2 = if has_prefix(ls[j], key) {
            m.insert(key, remove_char(ls[j].skip(key.len() as int), '"'))
        } else {
            m
        };
        scan_key_lines(key, ls, j + 1, m2)
    }
}

pub open spec fn fallback_at(ls: Seq<Seq<char>>, k: int, m: Map<Seq<char>, Seq<char>>) -> Map<
    Seq<char>,
    Seq<char>,
>
    decreases fallback_keys().len() - k,
{
    if k < 0 || k >= fallback_keys().len() {
        m
    } else {
        fallback_at(ls, k + 1, scan_key_lines(fallback_keys()[k], ls, 0, m))
    }
}

/// What the fallback scanner leaves in the context, one fixed field name
/// after the other, each scanning every line of the raw text.
pub open spec fn more_parse_spec(text: Seq<char>, m: Map<Seq<char>, Seq<char>>) -> Map<
    Seq<char>,
    Seq<char>,
> {
    fallback_at(split_nl(text), 0, m)
}

fn fallback_key(k: usize) -> (r: &'static str)
    requires
        k < 8,
    ensures
        r@ == fallback_keys()[k as int],
{
    match k {
        0 => "VER",
        1 => "REL",
        2 => "PKGNAME",
        3 => "PKGEPOCH",
        4 => "PKGDES",
        5 => "PKGBREAK",
        6 => "PKGRECOM",
        _ => "PKGPROV",
    }
}

/// The degraded scanner: tolerates garbage anywhere, but is line-anchored
/// and prefix-based, so a field name that is a prefix of another token at
/// line start is misread as that field.
pub fn more_parse(c: &str, context: &mut ParseContext)
    requires
        old(context).wf(),
    ensures
        final(context).wf(),
        final(context)@ == more_parse_spec(c@, old(context)@),
{
    let lines = split_nl_str(c);
    let ghost ls = split_nl(c@);
    let mut k: usize = 0;
    while k < 8
        invariant
            k <= 8,
            views_of(lines@) == ls,
            context.wf(),
            more_parse_spec(c@, old(context)@) == fallback_at(ls, k as int, context@),
        decreases 8 - k,
    {
        let ghost k0 = k as int;
        let ghost m_outer = context@;
        let key = fallback_key(k);
        let n = lines.len();
        let mut j: usize = 0;
        while j < n
            invariant
                j <= n,
                n == lines@.len(),
                views_of(lines@) == ls,
                key@ == fallback_keys()[k0],
                context.wf(),
                scan_key_lines(key@, ls, 0, m_outer) == scan_key_lines(
                    key@,
                    ls,
                    j as int,
                    context@,
                ),
            decreases n - j,
        {
            let ghost j0 = j as int;
            let ghost mc = context@;
            proof {
                assert(ls[j0] == lines@[j0]@);
            }
            match strip_prefix_str(lines[j].as_str(), key) {
                Some(v) => {
                    let sv = strip_char(v.as_str(), '"');
                    context.insert(String::from_str(key), sv);
                    proof {
                        assert(scan_key_lines(key@, ls, j0, mc) == scan_key_lines(
                            key@,
                            ls,
                            j0 + 1,
                            mc.insert(key@, remove_char(ls[j0].skip(key@.len() as int), '"')),
                        ));
                    }
                },
                None => {
                    proof {
                        assert(scan_key_lines(key@, ls, j0, mc) == scan_key_lines(
                            key@,
                            ls,
                            j0 + 1,
                            mc,
                        ));
                    }
                },
            }
            j += 1;
        }
        proof {
            assert(fallback_at(ls, k0, m_outer) == fallback_at(ls, k0 + 1, context@));
        }
        k += 1;
    }
}

// ---------------------------------------------------------------------------
// The two tiers together
// ---------------------------------------------------------------------------

/// Which tier produced the context.
#[derive(Debug, Clone, Copy, PartialEq, Eq)]
pub enum Tier {
    Strict,
    Fallback,
}

/// The context a recipe text leaves behind: the strict grammar's
/// declarations merged in where the text parses, the fallback scanner's
/// findings where it does not.
pub open spec fn recipe_ctx(text: Seq<char>, m: Map<Seq<char>, Seq<char>>) -> Map<
    Seq<char>,
    Seq<char>,
> {
    match strict_parse(text) {
        Some(ds) => merge_decls(m, ds),
        None => more_parse_spec(text, m),
    }
}

/// Parses one recipe file into the context: the strict grammar first, the
/// degraded scanner only where the strict grammar rejects the text.  The
/// tier returned says which of the two succeeded.
pub fn parse_recipe(text: &str, context: &mut ParseContext) -> (t: Tier)
    requires
        old(context).wf(),
    ensures
        final(context).wf(),
        final(context)@ == recipe_ctx(text@, old(context)@),
        (t is Strict) == (strict_parse(text@) is Some),
{
    match strict_decls(text) {
        Some(ds) => {
            merge_into(context, &ds);
            Tier::Strict
        },
        None => {
            more_parse(text, context);
            Tier::Fallback
        },
    }
}

} // verus!
