//! Macro invocations: the kind of delimiter they use, what an empty one is
//! written as, and how the lines of a macro that is not reformatted are
//! re-indented.
use vstd::prelude::*;

use vstd::string::StringExecFns;

use crate::config::{str_eq, Config};
use crate::shape::{Indent, Shape};
use crate::text::{
    utf8_len, chars_of, is_whitespace_char, is_ws_char, lines_of, split_lines, trim_end_str, trim_end_ws,
    trim_str, trim_ws,
};

verus! {

/// The delimiters of a macro invocation.
#[derive(Clone, Copy, Debug, PartialEq, Eq, Structural)]
pub enum MacroStyle {
    Parens,
    Brackets,
    Braces,
}

/// Where a macro invocation stands.
#[derive(Clone, Copy, Debug, PartialEq, Eq, Structural)]
pub enum MacroPosition {
    Item,
    Statement,
    Expression,
}

/// The opening delimiter of a style.
pub open spec fn opener_text(style: MacroStyle) -> Seq<char> {
    match style {
        MacroStyle::Parens => "("@,
        MacroStyle::Brackets => "["@,
        MacroStyle::Braces => "{"@,
    }
}

impl MacroStyle {
    /// The opening delimiter.
    pub fn opener(&self) -> (r: &'static str)
        ensures
            r@ == opener_text(*self),
    {
        match self {
            MacroStyle::Parens => "(",
            MacroStyle::Brackets => "[",
            MacroStyle::Braces => "{",
        }
    }
}

/// The style of an invocation from where its first `(`, `[` and `{` outside
/// comments stand (`None` where there is none): the delimiter that comes first,
/// braces when there is none.
pub fn style_from_positions(
    paren_pos: Option<usize>,
    bracket_pos: Option<usize>,
    brace_pos: Option<usize>,
) -> (r: MacroStyle)
    ensures
        ({
            let p = match paren_pos {
                Some(x) => x as int,
                None => usize::MAX as int,
            };
            let k = match bracket_pos {
                Some(x) => x as int,
                None => usize::MAX as int,
            };
            let b = match brace_pos {
                Some(x) => x as int,
                None => usize::MAX as int,
            };
            r == if p < k && p < b {
                MacroStyle::Parens
            } else if k < b {
                MacroStyle::Brackets
            } else {
                MacroStyle::Braces
            }
        }),
{
    let paren_pos = match paren_pos {
        Some(x) => x,
        None => usize::MAX,
    };
    let bracket_pos = match bracket_pos {
        Some(x) => x,
        None => usize::MAX,
    };
    let brace_pos = match brace_pos {
        Some(x) => x,
        None => usize::MAX,
    };
    if paren_pos < bracket_pos && paren_pos < brace_pos {
        MacroStyle::Parens
    } else if bracket_pos < brace_pos {
        MacroStyle::Brackets
    } else {
        MacroStyle::Braces
    }
}

/// The name of an invocation as written: the path and `!`, then the extra
/// identifier after a space, where there is one.
pub fn macro_name_text(path: &str, extra_ident: Option<&str>) -> (r: String)
    ensures
        r@ == path@ + "!"@ + match extra_ident {
            Some(i) => " "@ + i@,
            None => Seq::empty(),
        },
{
    let mut r = String::from_str(path);
    r.append("!");
    match extra_ident {
        Some(i) => {
            r.append(" ");
            r.append(i);
        },
        None => {
            proof {
                reveal_strlit("!");
            }
            assert(r@ =~= path@ + "!"@ + Seq::<char>::empty());
        },
    }
    r
}

/// Whether an invocation of `macro_name` is always written with brackets:
/// `vec!` is.
pub fn is_forced_bracket(macro_name: &str) -> (r: bool)
    ensures
        r == (macro_name@ == "vec!"@),
{
    str_eq(macro_name, "vec!")
}

/// An invocation with nothing between its delimiters, as written.
pub open spec fn empty_macro_text(name: Seq<char>, style: MacroStyle, position: MacroPosition) -> Seq<
    char,
> {
    match style {
        MacroStyle::Parens => if position == MacroPosition::Item {
            name + "();"@
        } else {
            name + "()"@
        },
        MacroStyle::Brackets => name + "[]"@,
        MacroStyle::Braces => name + "{}"@,
    }
}

/// An invocation of `macro_name` with nothing between its delimiters: as an
/// item with parentheses it ends with `;`.
pub fn empty_macro_rewrite(macro_name: &str, style: MacroStyle, position: MacroPosition) -> (r:
    String)
    ensures
        r@ == empty_macro_text(macro_name@, style, position),
{
    let mut r = String::from_str(macro_name);
    match style {
        MacroStyle::Parens => {
            if position == MacroPosition::Item {
                r.append("();");
            } else {
                r.append("()");
            }
        },
        MacroStyle::Brackets => r.append("[]"),
        MacroStyle::Braces => r.append("{}"),
    }
    r
}

/// Whether a line is empty or white space only.
pub open spec fn is_blank(s: Seq<char>) -> bool {
    forall|i: int| 0 <= i < s.len() ==> is_ws_char(#[trigger] s[i])
}

/// Whether a line is empty or white space only.
pub fn is_empty_line(s: &str) -> (r: bool)
    ensures
        r == is_blank(s@),
{
    let v = chars_of(s);
    let mut i: usize = 0;
    while i < v.len()
        invariant
            i <= v@.len(),
            v@ == s@,
            forall|j: int| 0 <= j < i ==> is_ws_char(#[trigger] s@[j]),
        decreases v.len() - i,
    {
        if !is_whitespace_char(v[i]) {
            return false;
        }
        i = i + 1;
    }
    true
}

/// The width of the spaces and tabs that start `s`, a tab counting `tab_spaces`.
pub open spec fn prefix_space_width(config: Config, s: Seq<char>) -> int
    decreases s.len(),
{
    if s.len() == 0 {
        0
    } else if s[0] == ' ' {
        1 + prefix_space_width(config, s.drop_first())
    } else if s[0] == '\t' {
        config.tab_spaces + prefix_space_width(config, s.drop_first())
    } else {
        0
    }
}

/// The prefix width grows by at most `tab_spaces + 1` a character.
proof fn lemma_prefix_space_width_bound(config: Config, s: Seq<char>)
    ensures
        0 <= prefix_space_width(config, s) <= s.len() * (config.tab_spaces + 1),
    decreases s.len(),
{
    if s.len() > 0 {
        lemma_prefix_space_width_bound(config, s.drop_first());
        assert((s.len() - 1) * (config.tab_spaces + 1) + config.tab_spaces + 1 == s.len() * (
        config.tab_spaces + 1)) by (nonlinear_arith);
    }
}

/// The width of the spaces and tabs that start `s`, a tab counting `tab_spaces`.
pub fn get_prefix_space_width(config: &Config, s: &str) -> (r: usize)
    requires
        s@.len() * (config.tab_spaces + 1) <= usize::MAX,
    ensures
        r == prefix_space_width(*config, s@),
{
    let v = chars_of(s);
    let mut width: usize = 0;
    let mut i: usize = 0;
    proof {
        lemma_prefix_space_width_bound(*config, s@);
        assert(s@.skip(0) =~= s@);
    }
    while i < v.len()
        invariant
            i <= v@.len(),
            v@ == s@,
            width + prefix_space_width(*config, s@.skip(i as int)) == prefix_space_width(
                *config,
                s@,
            ),
            prefix_space_width(*config, s@) <= usize::MAX,
        decreases v.len() - i,
    {
        let c = v[i];
        assert(s@.skip(i as int).drop_first() =~= s@.skip(i + 1));
        assert(s@.skip(i as int)[0] == c);
        proof {
            lemma_prefix_space_width_bound(*config, s@.skip(i + 1));
        }
        if c == ' ' {
            width = width + 1;
        } else if c == '\t' {
            width = width + config.tab_spaces;
        } else {
            return width;
        }
        i = i + 1;
    }
    assert(s@.skip(i as int) =~= Seq::<char>::empty());
    width
}


/// The smallest prefix width of the lines that are not blank, if any is not.
pub open spec fn min_prefix_width(config: Config, lines: Seq<Seq<char>>) -> Option<int>
    decreases lines.len(),
{
    if lines.len() == 0 {
        None
    } else {
        let m = min_prefix_width(config, lines.drop_last());
        if is_blank(lines.last()) {
            m
        } else {
            let w = prefix_space_width(config, lines.last());
            match m {
                None => Some(w),
                Some(x) => Some(if x <= w {
                    x
                } else {
                    w
                }),
            }
        }
    }
}

/// The indentation of `width` columns under `config` (see `Indent::from_width`).
pub open spec fn indent_of_width(config: Config, width: int) -> Indent {
    if config.tab_spaces > 0 {
        Indent {
            block_indent: (config.tab_spaces * (width / config.tab_spaces as int)) as usize,
            alignment: (width % config.tab_spaces as int) as usize,
        }
    } else {
        Indent { block_indent: 0, alignment: width as usize }
    }
}

/// A line after the first of a macro that is not reformatted: empty when blank,
/// else its text without white space around it, after `indent` and as much of
/// its own indentation as exceeds the smallest, `min`.
pub open spec fn reindented_line(config: Config, indent: Indent, min: int, line: Seq<char>) -> Seq<
    char,
> {
    if is_blank(line) {
        Seq::empty()
    } else {
        let w = prefix_space_width(config, line);
        let extra = if w >= min {
            w - min
        } else {
            0
        };
        indent_of_width(config, indent.spec_width() + extra).spec_text(config) + trim_ws(line)
    }
}

/// The lines `ls` with a line feed between each two.
pub open spec fn join_lines(ls: Seq<Seq<char>>) -> Seq<char>
    decreases ls.len(),
{
    if ls.len() == 0 {
        Seq::empty()
    } else if ls.len() == 1 {
        ls[0]
    } else {
        join_lines(ls.drop_last()) + "\n"@ + ls.last()
    }
}

/// A macro that is not reformatted, with each line after the first re-indented
/// under `indent`; `None` when it has no line, or only blank lines after the first.
pub open spec fn indented_snippet(config: Config, s: Seq<char>, indent: Indent) -> Option<
    Seq<char>,
> {
    let lines = lines_of(s);
    if lines.len() == 0 {
        None
    } else {
        let rest = lines.drop_first();
        match min_prefix_width(config, rest) {
            None => None,
            Some(m) => Some(
                trim_end_ws(lines[0]) + "\n"@ + join_lines(
                    rest.map_values(|l: Seq<char>| reindented_line(config, indent, m, l)),
                ),
            ),
        }
    }
}

/// Re-indents the lines after the first of a macro that is not reformatted
/// (see `indented_snippet`).
pub fn indent_macro_snippet(config: &Config, macro_str: &str, indent: Indent) -> (r: Option<
    String,
>)
    requires
        config.hard_tabs ==> config.tab_spaces > 0,
        indent.spec_width() + macro_str@.len() * (config.tab_spaces + 1) <= usize::MAX,
    ensures
        match indented_snippet(*config, macro_str@, indent) {
            Some(t) => r matches Some(x) && x@ == t,
            None => r is None,
        },
{
    let lines = split_lines(macro_str);
    let ghost ls = lines_of(macro_str@);
    if lines.len() == 0 {
        return None;
    }
    let first_line = trim_end_str(lines[0]);
    let ghost rest = ls.drop_first();
    proof {
        crate::text::lemma_lines_of_len(macro_str@);
    }
    let mut widths: Vec<Option<usize>> = Vec::new();
    let mut min: Option<usize> = None;
    let mut i: usize = 1;
    while i < lines.len()
        invariant
            1 <= i <= lines@.len(),
            lines@.len() == ls.len(),
            forall|j: int| 0 <= j < lines@.len() ==> (#[trigger] lines@[j])@ == ls[j],
            rest == ls.drop_first(),
            widths@.len() == i - 1,
            forall|j: int|
                0 <= j < i - 1 ==> (#[trigger] widths@[j]) == if is_blank(rest[j]) {
                    None::<usize>
                } else {
                    Some(prefix_space_width(*config, rest[j]) as usize)
                },
            min_prefix_width(*config, rest.take(i - 1)) == match min {
                Some(x) => Some(x as int),
                None => None::<int>,
            },
            macro_str@.len() * (config.tab_spaces + 1) <= usize::MAX,
            forall|j: int| 0 <= j < ls.len() ==> (#[trigger] ls[j]).len() <= macro_str@.len(),
        decreases lines.len() - i,
    {
        assert(rest[i - 1] == lines@[i as int]@);
        assert(rest.take(i as int).drop_last() =~= rest.take(i - 1));
        let line = lines[i];
        if is_empty_line(line) {
            widths.push(None);
        } else {
            proof {
                assert(line@.len() * (config.tab_spaces + 1) <= macro_str@.len() * (
                config.tab_spaces + 1)) by (nonlinear_arith)
                    requires
                        line@.len() <= macro_str@.len(),
                ;
            }
            let w = get_prefix_space_width(config, line);
            widths.push(Some(w));
            min = match min {
                None => Some(w),
                Some(x) => Some(
                    if x <= w {
                        x
                    } else {
                        w
                    },
                ),
            };
        }
        i = i + 1;
    }
    assert(rest.take(i - 1) =~= rest);
    let m = match min {
        None => {
            return None;
        },
        Some(m) => m,
    };
    let ghost mapped = rest.map_values(|l: Seq<char>| reindented_line(*config, indent, m as int, l));
    let mut r = String::from_str(first_line);
    r.append("\n");
    let mut k: usize = 1;
    proof {
        assert(mapped.take(0) =~= Seq::<Seq<char>>::empty());
    }
    while k < lines.len()
        invariant
            1 <= k <= lines@.len(),
            lines@.len() == ls.len(),
            forall|j: int| 0 <= j < lines@.len() ==> (#[trigger] lines@[j])@ == ls[j],
            rest == ls.drop_first(),
            widths@.len() == rest.len(),
            forall|j: int|
                0 <= j < rest.len() ==> (#[trigger] widths@[j]) == if is_blank(rest[j]) {
                    None::<usize>
                } else {
                    Some(prefix_space_width(*config, rest[j]) as usize)
                },
            mapped == rest.map_values(
                |l: Seq<char>| reindented_line(*config, indent, m as int, l),
            ),
            min_prefix_width(*config, rest) == Some(m as int),
            r@ == trim_end_ws(ls[0]) + "\n"@ + join_lines(mapped.take(k - 1)),
            indent.spec_width() + macro_str@.len() * (config.tab_spaces + 1) <= usize::MAX,
            config.hard_tabs ==> config.tab_spaces > 0,
            forall|j: int| 0 <= j < ls.len() ==> (#[trigger] ls[j]).len() <= macro_str@.len(),
        decreases lines.len() - k,
    {
        let ghost before = r@;
        if k > 1 {
            r.append("\n");
        }
        let line = lines[k];
        assert(rest[k - 1] == line@);
        let mut piece = String::new();
        match widths[k - 1] {
            None => {},
            Some(w) => {
                proof {
                    lemma_prefix_space_width_bound(*config, line@);
                    assert(line@.len() * (config.tab_spaces + 1) <= macro_str@.len() * (
                    config.tab_spaces + 1)) by (nonlinear_arith)
                        requires
                            line@.len() <= macro_str@.len(),
                    ;
                }
                let extra = if w >= m {
                    w - m
                } else {
                    0
                };
                let new_indent = Indent::from_width(config, indent.width() + extra);
                let t = new_indent.to_string(config);
                piece.append(t.as_str());
                piece.append(trim_str(line));
                proof {
                    if config.tab_spaces > 0 {
                        vstd::arithmetic::div_mod::lemma_fundamental_div_mod(
                            indent.spec_width() + extra,
                            config.tab_spaces as int,
                        );
                    }
                    assert(new_indent == indent_of_width(*config, indent.spec_width() + extra));
                }
            },
        }
        assert(piece@ == mapped[k - 1]);
        r.append(piece.as_str());
        assert(mapped.take(k as int).drop_last() =~= mapped.take(k - 1));
        assert(r@ == trim_end_ws(ls[0]) + "\n"@ + join_lines(mapped.take(k as int)));
        k = k + 1;
    }
    assert(mapped.take(k - 1) =~= mapped);
    Some(r)
}


/// Whether an invocation of the macro at `path` is a `try!`.
pub fn is_try_macro(path: &str) -> (r: bool)
    ensures
        r == (path@ == "try"@),
{
    str_eq(path, "try")
}

/// Whether `s` holds a line feed.
pub open spec fn has_line_feed(s: Seq<char>) -> bool {
    exists|i: int| 0 <= i < s.len() && s[i] == '\n'
}

/// Whether `s` holds a line feed.
fn contains_line_feed(s: &str) -> (r: bool)
    ensures
        r == has_line_feed(s@),
{
    let v = chars_of(s);
    let mut i: usize = 0;
    while i < v.len()
        invariant
            i <= v@.len(),
            v@ == s@,
            forall|j: int| 0 <= j < i ==> s@[j] != '\n',
        decreases v.len() - i,
    {
        if v[i] == '\n' {
            return true;
        }
        i = i + 1;
    }
    false
}

/// `vec![lhs; rhs]` as written, from its rewritten parts: on one line where both
/// are single lines and the line fits the shape's width (in bytes); else with
/// each part on a line of its own, one level deeper than the macro.
pub open spec fn vec_semi_text(
    config: Config,
    macro_name: Seq<char>,
    lhs: Seq<char>,
    rhs: Seq<char>,
    shape: Shape,
) -> Option<Seq<char>> {
    let brackets = if config.spaces_within_square_brackets {
        ("[ "@, " ]"@)
    } else {
        ("["@, "]"@)
    };
    match shape.spec_add_offset(utf8_len(macro_name) as usize).spec_sub_width(
        utf8_len(macro_name) as usize,
    ) {
        None => None,
        Some(mac_shape) => {
            let nested = mac_shape.spec_block_indent(config.tab_spaces);
            let overhead = utf8_len(brackets.0) + utf8_len(brackets.1) + 6;
            if !has_line_feed(lhs) && !has_line_feed(rhs) && utf8_len(lhs) + utf8_len(rhs)
                + overhead <= shape.width {
                Some(macro_name + brackets.0 + lhs + "; "@ + rhs + brackets.1)
            } else {
                Some(
                    macro_name + brackets.0 + "\n"@ + nested.indent.spec_text(config) + lhs
                        + ";\n"@ + nested.indent.spec_text(config) + rhs + "\n"@
                        + shape.indent.spec_text(config) + brackets.1,
                )
            }
        },
    }
}

/// `vec![lhs; rhs]` as written, from its rewritten parts (see `vec_semi_text`).
pub fn vec_semi_rewrite(
    config: &Config,
    macro_name: &str,
    lhs: &str,
    rhs: &str,
    shape: Shape,
) -> (r: Option<String>)
    requires
        config.hard_tabs ==> config.tab_spaces > 0,
        shape.offset + utf8_len(macro_name@) <= usize::MAX,
        shape.indent.block_indent + shape.offset + utf8_len(macro_name@) + config.tab_spaces
            <= usize::MAX,
        shape.indent.alignment + config.tab_spaces <= usize::MAX,
        !config.hard_tabs ==> shape.indent.spec_width() + config.tab_spaces <= usize::MAX,
        utf8_len(lhs@) + utf8_len(rhs@) + 10 <= usize::MAX,
    ensures
        match vec_semi_text(*config, macro_name@, lhs@, rhs@, shape) {
            Some(t) => r matches Some(x) && x@ == t,
            None => r is None,
        },
{
    let (lbr, rbr) = if config.spaces_within_square_brackets {
        ("[ ", " ]")
    } else {
        ("[", "]")
    };
    proof {
        reveal_strlit("[ ");
        reveal_strlit(" ]");
        reveal_strlit("[");
        reveal_strlit("]");
        crate::text::lemma_ascii_utf8_len("[ "@);
        crate::text::lemma_ascii_utf8_len(" ]"@);
        crate::text::lemma_ascii_utf8_len("["@);
        crate::text::lemma_ascii_utf8_len("]"@);
    }
    let mac_shape = match shape.offset_left(macro_name.len()) {
        None => {
            return None;
        },
        Some(s) => s,
    };
    let nested_shape = mac_shape.block_indent(config.tab_spaces);
    let total_overhead = lbr.len() + rbr.len() + 6;
    if !contains_line_feed(lhs) && !contains_line_feed(rhs) && lhs.len() + rhs.len()
        + total_overhead <= shape.width {
        let mut r = String::from_str(macro_name);
        r.append(lbr);
        r.append(lhs);
        r.append("; ");
        r.append(rhs);
        r.append(rbr);
        Some(r)
    } else {
        let nested = nested_shape.indent.to_string(config);
        let outer = shape.indent.to_string(config);
        let mut r = String::from_str(macro_name);
        r.append(lbr);
        r.append("\n");
        r.append(nested.as_str());
        r.append(lhs);
        r.append(";\n");
        r.append(nested.as_str());
        r.append(rhs);
        r.append("\n");
        r.append(outer.as_str());
        r.append(rbr);
        Some(r)
    }
}

} // verus!
