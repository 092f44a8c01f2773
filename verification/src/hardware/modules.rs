//! Adding GPU kernel modules to the `MODULES=(...)` line of `mkinitcpio.conf`.
use vstd::prelude::*;
use crate::text::{
    chars_of, concat, contains_str, has_sub, is_prefix, join, join_seq, lemma_has_sub_concat,
    lemma_trim_keeps_nonblank, lemma_views_push, occurs_at, str_eq, string_from_range, trim,
    trim_chars, trim_start, views, is_ws,
};

verus! {

/// The GPU families whose kernel modules go into the initramfs.
#[derive(Debug, PartialEq, Eq, Clone, Copy)]
pub enum ModuleSet {
    Amd,
    Nvidia,
}

/// The modules of a family, as they are written into the line.
pub open spec fn module_names(m: ModuleSet) -> Seq<char> {
    match m {
        ModuleSet::Amd => "amdgpu radeon"@,
        ModuleSet::Nvidia => "i915 nvidia nvidia_modeset nvidia_uvm nvidia_drm"@,
    }
}

/// The first index of `c` in `s`, or -1.
pub open spec fn first_index(s: Seq<char>, c: char) -> int
    decreases s.len(),
{
    if s.len() == 0 {
        -1
    } else if s[0] == c {
        0
    } else {
        let r = first_index(s.drop_first(), c);
        if r < 0 {
            -1
        } else {
            r + 1
        }
    }
}

/// The last index of `c` in `s`, or -1.
pub open spec fn last_index(s: Seq<char>, c: char) -> int
    decreases s.len(),
{
    if s.len() == 0 {
        -1
    } else if s.last() == c {
        s.len() - 1
    } else {
        last_index(s.drop_last(), c)
    }
}

/// A line that the rewriting looks at: it starts with `MODULES=` after leading
/// whitespace and holds a `(` and a `)`.
pub open spec fn is_modules_line(line: Seq<char>) -> bool {
    is_prefix("MODULES="@, trim_start(line)) && first_index(line, '(') >= 0 && last_index(line, ')')
        >= 0
}

/// A line the rewriting can handle: if it is a modules line, its last `)` comes
/// after its first `(`.
pub open spec fn modules_line_ok(line: Seq<char>) -> bool {
    is_modules_line(line) ==> first_index(line, '(') < last_index(line, ')')
}

/// The new text between the parentheses. AMD: an empty list gets
/// `amdgpu radeon`, a list with both keeps them, a list with one gets the other
/// (`radeon` after, `amdgpu` before), any other list gets both at the end.
/// NVIDIA: an empty list gets the modules, a list that mentions `nvidia` stays,
/// any other list gets the modules at the end.
pub open spec fn new_inside(existing: Seq<char>, m: ModuleSet) -> Seq<char> {
    if trim(existing).len() == 0 {
        module_names(m)
    } else {
        match m {
            ModuleSet::Amd => if has_sub(existing, "amdgpu"@) && has_sub(existing, "radeon"@) {
                existing
            } else if has_sub(existing, "amdgpu"@) {
                existing + " radeon"@
            } else if has_sub(existing, "radeon"@) {
                "amdgpu "@ + existing
            } else {
                existing + " "@ + module_names(m)
            },
            ModuleSet::Nvidia => if has_sub(existing, "nvidia"@) {
                existing
            } else {
                existing + " "@ + module_names(m)
            },
        }
    }
}

/// The rewritten line, or `None` when the line stays as it is.
pub open spec fn rewrite_line(line: Seq<char>, m: ModuleSet) -> Option<Seq<char>> {
    if is_modules_line(line) {
        let s = first_index(line, '(');
        let e = last_index(line, ')');
        let existing = line.subrange(s + 1, e);
        let ni = new_inside(existing, m);
        if ni != existing {
            Some(line.subrange(0, s + 1) + ni + line.subrange(e, line.len() as int))
        } else {
            None
        }
    } else {
        None
    }
}

proof fn lemma_first_index(s: Seq<char>, c: char)
    ensures
        -1 <= first_index(s, c) < s.len(),
        first_index(s, c) >= 0 ==> s[first_index(s, c)] == c,
        forall|k: int| 0 <= k < s.len() && (first_index(s, c) < 0 || k < first_index(s, c)) ==> s[k]
            != c,
    decreases s.len(),
{
    if s.len() > 0 && s[0] != c {
        lemma_first_index(s.drop_first(), c);
        assert forall|k: int| 0 <= k < s.len() && (first_index(s, c) < 0 || k < first_index(s, c)) implies s[k]
            != c by {
            if k > 0 {
                assert(s[k] == s.drop_first()[k - 1]);
            }
        }
    }
}

proof fn lemma_last_index(s: Seq<char>, c: char)
    ensures
        -1 <= last_index(s, c) < s.len(),
        last_index(s, c) >= 0 ==> s[last_index(s, c)] == c,
        forall|k: int| 0 <= k < s.len() && k > last_index(s, c) ==> s[k] != c,
    decreases s.len(),
{
    if s.len() > 0 && s.last() != c {
        lemma_last_index(s.drop_last(), c);
        assert forall|k: int| 0 <= k < s.len() && k > last_index(s, c) implies s[k] != c by {
            if k < s.len() - 1 {
                assert(s[k] == s.drop_last()[k]);
            }
        }
    }
}

fn find_first(v: &Vec<char>, c: char) -> (r: Option<usize>)
    ensures
        match r {
            Some(i) => i as int == first_index(v@, c),
            None => first_index(v@, c) < 0,
        },
{
    proof {
        lemma_first_index(v@, c);
    }
    let mut i: usize = 0;
    while i < v.len()
        invariant
            i <= v@.len(),
            forall|k: int| 0 <= k < i ==> v@[k] != c,
        decreases v.len() - i,
    {
        if v[i] == c {
            proof {
                lemma_first_index(v@, c);
                let f = first_index(v@, c);
                assert(v@[i as int] == c);
                if f >= 0 && f < i {
                    assert(v@[f] != c);
                }
            }
            return Some(i);
        }
        i = i + 1;
    }
    None
}

fn find_last(v: &Vec<char>, c: char) -> (r: Option<usize>)
    ensures
        match r {
            Some(i) => i as int == last_index(v@, c),
            None => last_index(v@, c) < 0,
        },
{
    proof {
        lemma_last_index(v@, c);
    }
    let mut i: usize = v.len();
    while i > 0
        invariant
            i <= v@.len(),
            forall|k: int| i <= k < v@.len() ==> v@[k] != c,
        decreases i,
    {
        if v[i - 1] == c {
            proof {
                lemma_last_index(v@, c);
                let f = last_index(v@, c);
                assert(v@[i - 1] == c);
                if f > i - 1 {
                    assert(v@[f] != c);
                }
            }
            return Some(i - 1);
        }
        i = i - 1;
    }
    None
}

fn new_inside_text(existing: &str, m: ModuleSet) -> (r: String)
    ensures
        r@ == new_inside(existing@, m),
{
    let t = trim_chars(&chars_of(existing));
    let names = match m {
        ModuleSet::Amd => "amdgpu radeon",
        ModuleSet::Nvidia => "i915 nvidia nvidia_modeset nvidia_uvm nvidia_drm",
    };
    if t.len() == 0 {
        return crate::text::str_to_string(names);
    }
    match m {
        ModuleSet::Amd => {
            let a = contains_str(existing, "amdgpu");
            let b = contains_str(existing, "radeon");
            if a && b {
                crate::text::str_to_string(existing)
            } else if a {
                concat(existing, " radeon")
            } else if b {
                concat("amdgpu ", existing)
            } else {
                let x = concat(existing, " ");
                concat(x.as_str(), names)
            }
        },
        ModuleSet::Nvidia => {
            if contains_str(existing, "nvidia") {
                crate::text::str_to_string(existing)
            } else {
                let x = concat(existing, " ");
                concat(x.as_str(), names)
            }
        },
    }
}

/// Whether the line can be handled (see [`modules_line_ok`]).
pub fn modules_line_is_ok(line: &str) -> (r: bool)
    ensures
        r == modules_line_ok(line@),
{
    let v = chars_of(line);
    let t = crate::text::trim_start_str(line);
    if !crate::text::starts_with(t.as_str(), "MODULES=") {
        return true;
    }
    match (find_first(&v, '('), find_last(&v, ')')) {
        (Some(s), Some(e)) => s < e,
        _ => true,
    }
}

/// The line with the modules of `m` added between its parentheses, or `None`
/// when the line stays as it is.
pub fn update_modules_line(line: &str, m: ModuleSet) -> (r: Option<String>)
    requires
        modules_line_ok(line@),
    ensures
        match r {
            Some(x) => rewrite_line(line@, m) == Some(x@),
            None => rewrite_line(line@, m) is None,
        },
{
    let v = chars_of(line);
    let t = crate::text::trim_start_str(line);
    if !crate::text::starts_with(t.as_str(), "MODULES=") {
        return None;
    }
    match (find_first(&v, '('), find_last(&v, ')')) {
        (Some(s), Some(e)) => {
            proof {
                lemma_first_index(v@, '(');
                lemma_last_index(v@, ')');
            }
            let before = string_from_range(&v, 0, s + 1);
            let existing = string_from_range(&v, s + 1, e);
            let after = string_from_range(&v, e, v.len());
            let ni = new_inside_text(existing.as_str(), m);
            if str_eq(ni.as_str(), existing.as_str()) {
                None
            } else {
                let x = concat(before.as_str(), ni.as_str());
                Some(concat(x.as_str(), after.as_str()))
            }
        },
        _ => None,
    }
}

// ---------------------------------------------------------------------------
// Whole files
// ---------------------------------------------------------------------------

/// The first position at or after `i` that holds a line break, or the end.
pub open spec fn newline_from(s: Seq<char>, i: int) -> int
    decreases s.len() - i,
{
    if 0 <= i < s.len() && s[i] != '\n' {
        newline_from(s, i + 1)
    } else {
        i
    }
}

/// A line without the carriage return that ends it, if any.
pub open spec fn strip_cr(line: Seq<char>) -> Seq<char> {
    if line.len() > 0 && line.last() == '\r' {
        line.drop_last()
    } else {
        line
    }
}

/// The lines of `s` from position `i` on, as `str::lines` gives them: split at
/// line breaks, a carriage return before a break removed, no empty line after a
/// final break.
pub open spec fn lines_from(s: Seq<char>, i: int) -> Seq<Seq<char>>
    decreases s.len() - i,
{
    if i < 0 || i >= s.len() {
        Seq::empty()
    } else {
        let k = newline_from(s, i);
        if k >= s.len() {
            seq![s.subrange(i, s.len() as int)]
        } else {
            proof {
                lemma_newline_from(s, i);
            }
            seq![strip_cr(s.subrange(i, k))] + lines_from(s, k + 1)
        }
    }
}

/// The lines of a text.
pub open spec fn split_lines(s: Seq<char>) -> Seq<Seq<char>> {
    lines_from(s, 0)
}

pub proof fn lemma_newline_from(s: Seq<char>, i: int)
    requires
        0 <= i <= s.len(),
    ensures
        i <= newline_from(s, i) <= s.len(),
    decreases s.len() - i,
{
    if i < s.len() && s[i] != '\n' {
        lemma_newline_from(s, i + 1);
    }
}

/// The first line break at or after `i` is at `i + n` when the `n` characters
/// from `i` on hold none and the next one is a line break.
proof fn lemma_newline_at(s: Seq<char>, i: int, n: int)
    requires
        0 <= i,
        0 <= n,
        i + n < s.len(),
        s[i + n] == '\n',
        forall|k: int| i <= k < i + n ==> s[k] != '\n',
    ensures
        newline_from(s, i) == i + n,
    decreases n,
{
    if n > 0 {
        lemma_newline_from_shift(s, i, n);
    }
}

proof fn lemma_newline_from_shift(s: Seq<char>, i: int, n: int)
    requires
        0 <= i,
        0 < n,
        i + n < s.len(),
        s[i + n] == '\n',
        forall|k: int| i <= k < i + n ==> s[k] != '\n',
    ensures
        newline_from(s, i) == i + n,
    decreases n,
{
    assert(s[i] != '\n');
    if n > 1 {
        lemma_newline_from_shift(s, i + 1, n - 1);
    } else {
        assert(newline_from(s, i + 1) == i + 1);
    }
}

/// The lines that start at or after a line start `i` and before a line start
/// `j` come first: what follows them are the lines from `j` on.
proof fn lemma_lines_suffix(s: Seq<char>, i: int, j: int)
    requires
        0 <= i <= j <= s.len(),
        i < j ==> s[j - 1] == '\n',
        j < s.len(),
    ensures
        exists|p: Seq<Seq<char>>| lines_from(s, i) == p + lines_from(s, j),
    decreases j - i,
{
    if i == j {
        assert(lines_from(s, i) == Seq::<Seq<char>>::empty() + lines_from(s, j));
    } else {
        lemma_newline_from(s, i);
        lemma_newline_from_bound(s, i, j - 1);
        let k = newline_from(s, i);
        lemma_lines_suffix(s, k + 1, j);
        let p = choose|p: Seq<Seq<char>>| lines_from(s, k + 1) == p + lines_from(s, j);
        assert(lines_from(s, i) =~= (seq![strip_cr(s.subrange(i, k))] + p) + lines_from(s, j));
    }
}

/// The first line break at or after `i` is no later than a known one at `m`.
proof fn lemma_newline_from_bound(s: Seq<char>, i: int, m: int)
    requires
        0 <= i <= m < s.len(),
        s[m] == '\n',
    ensures
        i <= newline_from(s, i) <= m,
        newline_from(s, i) < s.len(),
        s[newline_from(s, i)] == '\n',
    decreases m - i,
{
    if s[i] != '\n' {
        lemma_newline_from_bound(s, i + 1, m);
    }
}

/// A line that starts at the beginning or right after a line break, holds no
/// line break and no final carriage return, and ends with a line break, is one
/// of the lines of the text.
pub proof fn lemma_line_after_break(s: Seq<char>, j: int, n: int)
    requires
        0 <= j,
        0 < n,
        j + n < s.len(),
        j > 0 ==> s[j - 1] == '\n',
        s[j + n] == '\n',
        forall|k: int| j <= k < j + n ==> s[k] != '\n',
        s[j + n - 1] != '\r',
    ensures
        exists|i: int| 0 <= i < split_lines(s).len() && split_lines(s)[i] == s.subrange(j, j + n),
{
    lemma_lines_suffix(s, 0, j);
    let p = choose|p: Seq<Seq<char>>| lines_from(s, 0) == p + lines_from(s, j);
    lemma_newline_at(s, j, n);
    assert(s.subrange(j, j + n).last() == s[j + n - 1]);
    assert(strip_cr(s.subrange(j, j + n)) == s.subrange(j, j + n));
    assert(lines_from(s, j)[0] == s.subrange(j, j + n));
    assert(split_lines(s)[p.len() as int] == s.subrange(j, j + n));
}

/// The lines of a text (`str::lines`).
pub fn lines_of(text: &str) -> (r: Vec<String>)
    ensures
        views(r@) == split_lines(text@),
{
    let v = chars_of(text);
    let n = v.len();
    let mut out: Vec<String> = Vec::new();
    let mut start: usize = 0;
    assert(views(out@) =~= Seq::<Seq<char>>::empty());
    while start < n
        invariant
            v@ == text@,
            n == v@.len(),
            start <= n,
            split_lines(text@) == views(out@) + lines_from(text@, start as int),
        decreases n - start,
    {
        let mut k = start;
        while k < n && v[k] != '\n'
            invariant
                v@ == text@,
                n == v@.len(),
                start <= k <= n,
                newline_from(text@, start as int) == newline_from(text@, k as int),
            decreases n - k,
        {
            k = k + 1;
        }
        let ghost before = out@;
        if k == n {
            let line = string_from_range(&v, start, n);
            out.push(line);
            proof {
                lemma_views_push(before, line);
            }
            assert(views(out@) + lines_from(text@, n as int) =~= views(before) + lines_from(
                text@,
                start as int,
            ));
            start = n;
        } else {
            let end = if k > start && v[k - 1] == '\r' {
                k - 1
            } else {
                k
            };
            let line = string_from_range(&v, start, end);
            assert(line@ == strip_cr(text@.subrange(start as int, k as int))) by {
                if k > start && v@[k - 1] == '\r' {
                    assert(text@.subrange(start as int, k as int).drop_last() =~= text@.subrange(
                        start as int,
                        k - 1,
                    ));
                }
            }
            out.push(line);
            proof {
                lemma_views_push(before, line);
            }
            assert(views(out@) + lines_from(text@, k + 1) =~= views(before) + lines_from(
                text@,
                start as int,
            ));
            start = k + 1;
        }
    }
    assert(views(out@) + lines_from(text@, start as int) =~= views(out@));
    out
}

/// Every line of the text can be handled.
pub open spec fn modules_config_ok(content: Seq<char>) -> bool {
    forall|i: int| 0 <= i < split_lines(content).len() ==> modules_line_ok(#[trigger] split_lines(content)[i])
}

/// The lines after rewriting.
pub open spec fn rewritten_lines(lines: Seq<Seq<char>>, m: ModuleSet) -> Seq<Seq<char>> {
    Seq::new(
        lines.len(),
        |i: int|
            match rewrite_line(lines[i], m) {
                Some(x) => x,
                None => lines[i],
            },
    )
}

/// Whether every line of the text can be handled.
pub fn modules_config_is_ok(content: &str) -> (r: bool)
    ensures
        r == modules_config_ok(content@),
{
    let lines = lines_of(content);
    let mut i: usize = 0;
    while i < lines.len()
        invariant
            i <= lines@.len(),
            views(lines@) == split_lines(content@),
            forall|k: int| 0 <= k < i ==> modules_line_ok(#[trigger] split_lines(content@)[k]),
        decreases lines.len() - i,
    {
        if !modules_line_is_ok(lines[i].as_str()) {
            assert(!modules_line_ok(split_lines(content@)[i as int]));
            return false;
        }
        i = i + 1;
    }
    true
}

/// The configuration with the modules of `m` added to its modules lines, the
/// lines joined with line breaks, and whether any line changed.
pub fn update_modules_config(content: &str, m: ModuleSet) -> (r: (String, bool))
    requires
        modules_config_ok(content@),
    ensures
        r.0@ == join_seq(rewritten_lines(split_lines(content@), m), "\n"@),
        r.1 == exists|i: int|
            0 <= i < split_lines(content@).len() && #[trigger] rewrite_line(split_lines(content@)[i], m)
                is Some,
{
    let lines = lines_of(content);
    let ghost ls = split_lines(content@);
    let mut out: Vec<String> = Vec::new();
    let mut modified = false;
    let mut i: usize = 0;
    assert(views(out@) =~= rewritten_lines(ls, m).subrange(0, 0));
    while i < lines.len()
        invariant
            i <= lines@.len(),
            ls == split_lines(content@),
            views(lines@) == ls,
            modules_config_ok(content@),
            views(out@) == rewritten_lines(ls, m).subrange(0, i as int),
            modified == exists|k: int| 0 <= k < i && #[trigger] rewrite_line(ls[k], m) is Some,
        decreases lines.len() - i,
    {
        assert(ls[i as int] == lines@[i as int]@);
        let ghost before = out@;
        match update_modules_line(lines[i].as_str(), m) {
            Some(x) => {
                modified = true;
                out.push(x);
                proof {
                    lemma_views_push(before, x);
                }
            },
            None => {
                let c = crate::text::copy_string(&lines[i]);
                out.push(c);
                proof {
                    lemma_views_push(before, c);
                }
            },
        }
        assert(views(out@) =~= rewritten_lines(ls, m).subrange(0, i + 1));
        i = i + 1;
    }
    assert(rewritten_lines(ls, m).subrange(0, ls.len() as int) =~= rewritten_lines(ls, m));
    (join(&out, "\n"), modified)
}

/// The modules of a family are in a text: for AMD both `amdgpu` and
/// `radeon`, for NVIDIA `nvidia`.
pub open spec fn modules_in(content: Seq<char>, m: ModuleSet) -> bool {
    match m {
        ModuleSet::Amd => has_sub(content, "amdgpu"@) && has_sub(content, "radeon"@),
        ModuleSet::Nvidia => has_sub(content, "nvidia"@),
    }
}

/// Whether the rewritten configuration holds the modules of the family.
pub fn modules_present(content: &str, m: ModuleSet) -> (r: bool)
    ensures
        r == modules_in(content@, m),
{
    match m {
        ModuleSet::Amd => contains_str(content, "amdgpu") && contains_str(content, "radeon"),
        ModuleSet::Nvidia => contains_str(content, "nvidia"),
    }
}

/// The module names of a family are in its own list.
proof fn lemma_names_hold_modules(m: ModuleSet)
    ensures
        modules_in(module_names(m), m),
{
    reveal_strlit("amdgpu radeon");
    reveal_strlit("amdgpu");
    reveal_strlit("radeon");
    reveal_strlit("nvidia");
    reveal_strlit("i915 nvidia nvidia_modeset nvidia_uvm nvidia_drm");
    match m {
        ModuleSet::Amd => {
            assert(module_names(m).subrange(0, 6) =~= "amdgpu"@);
            assert(module_names(m).subrange(7, 13) =~= "radeon"@);
            assert(occurs_at(module_names(m), "amdgpu"@, 0));
            assert(occurs_at(module_names(m), "radeon"@, 7));
        },
        ModuleSet::Nvidia => {
            assert(module_names(m).subrange(5, 11) =~= "nvidia"@);
            assert(occurs_at(module_names(m), "nvidia"@, 5));
        },
    }
}

/// After the rewriting the modules of the family are between the parentheses.
pub proof fn law_rewrite_adds_modules(existing: Seq<char>, m: ModuleSet)
    ensures
        modules_in(new_inside(existing, m), m),
{
    lemma_names_hold_modules(m);
    let names = module_names(m);
    if trim(existing).len() > 0 {
        match m {
            ModuleSet::Amd => {
                reveal_strlit(" radeon");
                reveal_strlit("radeon");
                reveal_strlit("amdgpu ");
                reveal_strlit("amdgpu");
                reveal_strlit(" ");
                assert(" radeon"@.subrange(1, 7) =~= "radeon"@);
                assert("amdgpu "@.subrange(0, 6) =~= "amdgpu"@);
                assert(occurs_at(" radeon"@, "radeon"@, 1));
                assert(occurs_at("amdgpu "@, "amdgpu"@, 0));
                lemma_has_sub_concat(existing, " radeon"@, "radeon"@);
                lemma_has_sub_concat(existing, " radeon"@, "amdgpu"@);
                lemma_has_sub_concat("amdgpu "@, existing, "amdgpu"@);
                lemma_has_sub_concat("amdgpu "@, existing, "radeon"@);
                lemma_has_sub_concat(existing + " "@, names, "amdgpu"@);
                lemma_has_sub_concat(existing + " "@, names, "radeon"@);
            },
            ModuleSet::Nvidia => {
                lemma_has_sub_concat(existing + " "@, names, "nvidia"@);
            },
        }
    }
}

/// The list `n` is `e`, or `e` and a space then more, or more then a space and `e`.
pub open spec fn keeps_list(n: Seq<char>, e: Seq<char>) -> bool {
    ||| n == e
    ||| n.len() > e.len() && n.subrange(0, e.len() + 1int) == e + " "@
    ||| n.len() > e.len() && n.subrange(n.len() - e.len() - 1, n.len() as int) == " "@ + e
}

proof fn lemma_keeps_after(e: Seq<char>, x: Seq<char>)
    ensures
        keeps_list(e + " "@ + x, e),
        has_sub(e + " "@ + x, e),
{
    reveal_strlit(" ");
    let n = e + " "@ + x;
    assert(n.subrange(0, e.len() + 1int) =~= e + " "@);
    assert(n.subrange(0, e.len() as int) =~= e);
    assert(occurs_at(n, e, 0));
}

proof fn lemma_keeps_before(x: Seq<char>, e: Seq<char>)
    ensures
        keeps_list(x + " "@ + e, e),
        has_sub(x + " "@ + e, e),
{
    reveal_strlit(" ");
    let n = x + " "@ + e;
    assert(n.subrange(n.len() - e.len() - 1, n.len() as int) =~= " "@ + e);
    assert(n.subrange(x.len() + 1int, x.len() + 1int + e.len()) =~= e);
    assert(occurs_at(n, e, x.len() + 1int));
}

/// Rewriting keeps what was there: a list that is not blank stands, whole and
/// unchanged, in the new list, alone, at its start followed by a space, or at
/// its end after a space.
#[verifier::rlimit(30)]
pub proof fn law_rewrite_keeps_existing(existing: Seq<char>, m: ModuleSet)
    requires
        trim(existing).len() > 0,
    ensures
        has_sub(new_inside(existing, m), existing),
        keeps_list(new_inside(existing, m), existing),
{
    let n = new_inside(existing, m);
    assert(existing.subrange(0, existing.len() as int) =~= existing);
    assert(occurs_at(existing, existing, 0));
    reveal_strlit(" radeon");
    reveal_strlit("amdgpu ");
    reveal_strlit(" ");
    reveal_strlit("radeon");
    reveal_strlit("amdgpu");
    assert(" radeon"@ =~= " "@ + "radeon"@);
    assert("amdgpu "@ =~= "amdgpu"@ + " "@);
    assert(existing + " radeon"@ =~= existing + " "@ + "radeon"@);
    assert("amdgpu "@ + existing =~= "amdgpu"@ + " "@ + existing);
    lemma_keeps_after(existing, "radeon"@);
    lemma_keeps_after(existing, module_names(m));
    lemma_keeps_before("amdgpu"@, existing);
}

/// Rewriting twice is rewriting once: the rewritten list already holds the
/// modules, so a second run leaves it as it is.
pub proof fn law_rewrite_settles(existing: Seq<char>, m: ModuleSet)
    ensures
        new_inside(new_inside(existing, m), m) == new_inside(existing, m),
{
    law_rewrite_adds_modules(existing, m);
    let n = new_inside(existing, m);
    reveal_strlit("amdgpu");
    reveal_strlit("nvidia");
    let p = match m {
        ModuleSet::Amd => "amdgpu"@,
        ModuleSet::Nvidia => "nvidia"@,
    };
    assert(has_sub(n, p));
    let i = choose|i: int| occurs_at(n, p, i);
    assert(n.subrange(i, i + p.len())[0] == p[0]);
    assert(n[i] == p[0]);
    lemma_trim_keeps_nonblank(n, i);
}

proof fn lemma_trim_start_suffix(x: Seq<char>)
    ensures
        trim_start(x).len() <= x.len(),
        trim_start(x) == x.subrange(x.len() - trim_start(x).len(), x.len() as int),
    decreases x.len(),
{
    if x.len() > 0 && is_ws(x[0]) {
        lemma_trim_start_suffix(x.drop_first());
        assert(x.drop_first().subrange(
            x.drop_first().len() - trim_start(x.drop_first()).len(),
            x.drop_first().len() as int,
        ) =~= x.subrange(x.len() - trim_start(x).len(), x.len() as int));
    } else {
        assert(x.subrange(0, x.len() as int) =~= x);
    }
}

proof fn lemma_trim_start_concat(p: Seq<char>, q: Seq<char>, i: int)
    requires
        0 <= i < p.len(),
        !is_ws(p[i]),
    ensures
        trim_start(p + q) == trim_start(p) + q,
    decreases p.len(),
{
    if is_ws(p[0]) {
        assert((p + q)[0] == p[0]);
        assert((p + q).drop_first() =~= p.drop_first() + q);
        assert(p.drop_first()[i - 1] == p[i]);
        lemma_trim_start_concat(p.drop_first(), q, i - 1);
    } else {
        assert((p + q)[0] == p[0]);
    }
}

proof fn lemma_first_index_concat(p: Seq<char>, q: Seq<char>, c: char)
    requires
        first_index(p, c) >= 0,
    ensures
        first_index(p + q, c) == first_index(p, c),
    decreases p.len(),
{
    assert((p + q)[0] == p[0]);
    if p[0] != c {
        assert((p + q).drop_first() =~= p.drop_first() + q);
        lemma_first_index_concat(p.drop_first(), q, c);
    }
}

proof fn lemma_last_index_concat(p: Seq<char>, q: Seq<char>, c: char)
    requires
        last_index(q, c) >= 0,
    ensures
        last_index(p + q, c) == p.len() + last_index(q, c),
    decreases q.len(),
{
    assert((p + q).last() == q.last());
    if q.last() != c {
        assert((p + q).drop_last() =~= p + q.drop_last());
        lemma_last_index_concat(p, q.drop_last(), c);
    }
}

/// A line that starts with `MODULES=` (after blanks) keeps doing so when
/// everything after its first `(` is replaced.
proof fn lemma_modules_prefix_kept(line: Seq<char>, s: int, rest: Seq<char>)
    requires
        0 <= s < line.len(),
        line[s] == '(',
        is_prefix("MODULES="@, trim_start(line)),
    ensures
        is_prefix("MODULES="@, trim_start(line.subrange(0, s + 1) + rest)),
{
    reveal_strlit("MODULES=");
    let a = line.subrange(0, s + 1);
    let b = line.subrange(s + 1, line.len() as int);
    assert(line =~= a + b);
    assert(a[s] == '(');
    assert(!is_ws(a[s]));
    lemma_trim_start_concat(a, b, s);
    lemma_trim_start_concat(a, rest, s);
    lemma_trim_start_suffix(a);
    crate::text::lemma_trim_start_nonblank(a, s);
    let ta = trim_start(a);
    assert(ta[ta.len() - 1] == a[a.len() - 1]);
    if ta.len() <= 8 {
        assert((ta + b)[ta.len() - 1] == '(');
        assert(trim_start(line).subrange(0, 8)[ta.len() - 1] == '(');
        assert("MODULES="@[ta.len() - 1] == '(');
    }
    assert((ta + rest).subrange(0, 8) =~= (ta + b).subrange(0, 8));
}

/// Rewriting a line twice is rewriting it once: a rewritten modules line is
/// still a modules line, with the same parentheses, and what now stands between
/// them is left as it is.
pub proof fn law_rewrite_line_settles(line: Seq<char>, m: ModuleSet)
    requires
        modules_line_ok(line),
    ensures
        rewrite_line(
            match rewrite_line(line, m) {
                Some(x) => x,
                None => line,
            },
            m,
        ) is None,
{
    if let Some(x) = rewrite_line(line, m) {
        let s = first_index(line, '(');
        let e = last_index(line, ')');
        lemma_first_index(line, '(');
        lemma_last_index(line, ')');
        let a = line.subrange(0, s + 1);
        let existing = line.subrange(s + 1, e);
        let ni = new_inside(existing, m);
        let t = line.subrange(e, line.len() as int);
        assert(x == a + ni + t);
        // The opening parenthesis stays first.
        lemma_first_index(a, '(');
        assert(a[s] == '(');
        assert forall|k: int| 0 <= k < s implies a[k] != '(' by {
            assert(a[k] == line[k]);
        }
        assert(first_index(a, '(') == s);
        assert(a + ni + t =~= a + (ni + t));
        lemma_first_index_concat(a, ni + t, '(');
        // The closing parenthesis stays last.
        lemma_last_index(t, ')');
        assert(t[0] == ')');
        assert forall|k: int| 0 < k < t.len() implies t[k] != ')' by {
            assert(t[k] == line[e + k]);
        }
        assert(last_index(t, ')') == 0);
        lemma_last_index_concat(a + ni, t, ')');
        assert(last_index(x, ')') == s + 1 + ni.len());
        // The line still starts with `MODULES=`.
        assert(a[s] == '(');
        lemma_modules_prefix_kept(line, s, ni + t);
        assert(a + (ni + t) == x);
        assert(is_modules_line(x));
        // What stands between them is the rewritten list, which stays.
        assert(x.subrange(s + 1, s + 1 + ni.len()) =~= ni);
        law_rewrite_settles(existing, m);
    }
}

} // verus!
