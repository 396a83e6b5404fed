//! Indentation and the space left for text: the arithmetic of layout.
use vstd::prelude::*;

use crate::config::Config;
use vstd::string::StringExecFns;

verus! {

/// An indentation: a block part, a whole number of tabs' widths, and an
/// alignment part, always written with spaces.
#[derive(Clone, Copy, Debug)]
pub struct Indent {
    /// Width of the block indent, in characters: a multiple of `tab_spaces`
    /// as `from_width` makes it, and as one level deeper or shallower keeps it
    /// (`lemma_from_width_width`, `lemma_block_indent_whole_tabs`).
    pub block_indent: usize,
    /// Alignment in characters.
    pub alignment: usize,
}

/// `n` copies of `c`.
pub open spec fn repeat_char(c: char, n: nat) -> Seq<char> {
    Seq::new(n, |_i: int| c)
}

/// The text of an indentation made of `tabs` tab characters then `spaces` spaces.
pub open spec fn indent_text(tabs: nat, spaces: nat) -> Seq<char> {
    repeat_char('\t', tabs) + repeat_char(' ', spaces)
}

impl Indent {
    pub open spec fn spec_width(self) -> int {
        self.block_indent + self.alignment
    }

    /// The text `to_string` writes for this indentation under `config`.
    pub open spec fn spec_text(self, config: Config) -> Seq<char> {
        if config.hard_tabs {
            indent_text((self.block_indent / config.tab_spaces) as nat, self.alignment as nat)
        } else {
            indent_text(0, self.spec_width() as nat)
        }
    }

    pub fn new(block_indent: usize, alignment: usize) -> (r: Indent)
        ensures
            r.block_indent == block_indent,
            r.alignment == alignment,
    {
        Indent { block_indent, alignment }
    }

    /// The indentation of `width` columns: as many whole tabs' widths of block
    /// indent as fit, so that the block indent is a multiple of `tab_spaces`,
    /// and the rest as alignment. With tabs of no width (only without hard
    /// tabs) there is no block indent.
    pub fn from_width(config: &Config, width: usize) -> (r: Indent)
        requires
            config.hard_tabs ==> config.tab_spaces > 0,
        ensures
            config.tab_spaces > 0 ==> r.block_indent == config.tab_spaces * (width
                / config.tab_spaces) && r.alignment == width % config.tab_spaces,
            config.tab_spaces > 0 ==> r.block_indent % config.tab_spaces == 0 && r.alignment
                < config.tab_spaces,
            config.tab_spaces == 0 ==> r.block_indent == 0 && r.alignment == width,
            r.spec_width() == width,
    {
        if config.tab_spaces() == 0 {
            Indent::new(0, width)
        } else {
            let tab_num = width / config.tab_spaces();
            let alignment = width % config.tab_spaces();
            proof {
                vstd::arithmetic::div_mod::lemma_fundamental_div_mod(
                    width as int,
                    config.tab_spaces as int,
                );
                vstd::arithmetic::div_mod::lemma_mod_multiples_basic(
                    tab_num as int,
                    config.tab_spaces as int,
                );
                assert((tab_num * config.tab_spaces) == config.tab_spaces * tab_num) by (
                nonlinear_arith);
            }
            Indent::new(config.tab_spaces() * tab_num, alignment)
        }
    }

    pub fn empty() -> (r: Indent)
        ensures
            r.block_indent == 0,
            r.alignment == 0,
    {
        Indent::new(0, 0)
    }

    /// The same indentation without its alignment.
    pub fn block_only(&self) -> (r: Indent)
        ensures
            r.block_indent == self.block_indent,
            r.alignment == 0,
    {
        Indent { block_indent: self.block_indent, alignment: 0 }
    }

    /// One level deeper.
    pub open spec fn deeper(self, config: Config) -> Indent {
        Indent { block_indent: (self.block_indent + config.tab_spaces) as usize, ..self }
    }

    /// One level shallower.
    pub open spec fn shallower(self, config: Config) -> Indent {
        if self.block_indent < config.tab_spaces {
            Indent { block_indent: self.block_indent, alignment: 0 }
        } else {
            Indent { block_indent: (self.block_indent - config.tab_spaces) as usize, ..self }
        }
    }

    /// One level deeper: the block indent grows by one tab.
    pub fn block_indent(self, config: &Config) -> (r: Indent)
        requires
            self.block_indent + config.tab_spaces <= usize::MAX,
        ensures
            r.block_indent == self.block_indent + config.tab_spaces,
            r.alignment == self.alignment,
            r == self.deeper(*config),
    {
        let mut s = self;
        s.block_indent = s.block_indent + config.tab_spaces();
        s
    }

    /// One level shallower. Below one tab of block indent, the block indent
    /// stays and the alignment is dropped.
    pub fn block_unindent(self, config: &Config) -> (r: Indent)
        ensures
            self.block_indent < config.tab_spaces ==> r.block_indent == self.block_indent
                && r.alignment == 0,
            self.block_indent >= config.tab_spaces ==> r.block_indent == self.block_indent
                - config.tab_spaces && r.alignment == self.alignment,
            r == self.shallower(*config),
    {
        if self.block_indent < config.tab_spaces() {
            Indent::new(self.block_indent, 0)
        } else {
            let mut s = self;
            s.block_indent = s.block_indent - config.tab_spaces();
            s
        }
    }

    pub fn width(&self) -> (r: usize)
        requires
            self.spec_width() <= usize::MAX,
        ensures
            r == self.spec_width(),
    {
        self.block_indent + self.alignment
    }

    /// The indentation as text: with tabs, one tab per `tab_spaces` of block
    /// indent then the alignment as spaces; otherwise the whole width as spaces.
    pub fn to_string(&self, config: &Config) -> (r: String)
        requires
            config.hard_tabs ==> config.tab_spaces > 0,
            !config.hard_tabs ==> self.spec_width() <= usize::MAX,
        ensures
            r@ == self.spec_text(*config),
    {
        let (num_tabs, num_spaces) = if config.hard_tabs() {
            (self.block_indent / config.tab_spaces(), self.alignment)
        } else {
            (0, self.width())
        };
        let mut indent = String::new();
        let mut i: usize = 0;
        while i < num_tabs
            invariant
                i <= num_tabs,
                indent@ == repeat_char('\t', i as nat),
            decreases num_tabs - i,
        {
            indent.append("\t");
            proof {
                reveal_strlit("\t");
            }
            assert(indent@ =~= repeat_char('\t', (i + 1) as nat));
            i = i + 1;
        }
        let mut j: usize = 0;
        while j < num_spaces
            invariant
                j <= num_spaces,
                indent@ == repeat_char('\t', num_tabs as nat) + repeat_char(' ', j as nat),
            decreases num_spaces - j,
        {
            indent.append(" ");
            proof {
                reveal_strlit(" ");
            }
            assert(indent@ =~= repeat_char('\t', num_tabs as nat) + repeat_char(' ', (j + 1) as nat));
            j = j + 1;
        }
        indent
    }

    /// The indentation as text after a line break.
    pub fn to_string_with_newline(&self, config: &Config) -> (r: String)
        requires
            config.hard_tabs ==> config.tab_spaces > 0,
            !config.hard_tabs ==> self.spec_width() <= usize::MAX,
        ensures
            r@ == seq!['\n'] + self.spec_text(*config),
    {
        let mut r = String::from_str("\n");
        proof {
            reveal_strlit("\n");
        }
        let rest = self.to_string(config);
        r.append(rest.as_str());
        r
    }
}

/// `a - b` when that is not negative, else 0.
pub open spec fn sat_sub(a: int, b: int) -> int {
    if a >= b {
        a - b
    } else {
        0
    }
}

/// The room given to a piece of code: `width` is the maximum number of
/// characters on its last line, `indent` the indentation of the lines after the
/// first, and `offset` the indentation plus the text already on the first line.
#[derive(Clone, Copy, Debug)]
pub struct Shape {
    pub width: usize,
    /// The current indentation of code.
    pub indent: Indent,
    /// Indentation + any already emitted text on the first line of the current
    /// statement.
    pub offset: usize,
}

impl Shape {
    pub open spec fn spec_used_width(self) -> int {
        self.indent.block_indent + self.offset
    }

    pub fn legacy(width: usize, indent: Indent) -> (r: Shape)
        ensures
            r.width == width,
            r.indent == indent,
            r.offset == indent.alignment,
    {
        Shape { width, indent, offset: indent.alignment }
    }

    /// The room left on a line of `config.max_width` after `indent`.
    pub fn indented(indent: Indent, config: &Config) -> (r: Shape)
        requires
            indent.spec_width() <= usize::MAX,
        ensures
            r.width == sat_sub(config.max_width as int, indent.spec_width()),
            r.indent == indent,
            r.offset == indent.alignment,
    {
        let w = indent.width();
        Shape {
            width: if config.max_width() >= w { config.max_width() - w } else { 0 },
            indent,
            offset: indent.alignment,
        }
    }

    pub fn with_max_width(&self, config: &Config) -> (r: Shape)
        requires
            self.indent.spec_width() <= usize::MAX,
        ensures
            r.width == sat_sub(config.max_width as int, self.indent.spec_width()),
            r.indent == self.indent,
            r.offset == self.offset,
    {
        let w = self.indent.width();
        Shape {
            width: if config.max_width() >= w { config.max_width() - w } else { 0 },
            indent: self.indent,
            offset: self.offset,
        }
    }

    pub fn offset(width: usize, indent: Indent, offset: usize) -> (r: Shape)
        ensures
            r.width == width,
            r.indent == indent,
            r.offset == offset,
    {
        Shape { width, indent, offset }
    }

    /// Visual indentation: the next lines align `extra_width` past the offset.
    pub fn visual_indent(&self, extra_width: usize) -> (r: Shape)
        requires
            self.offset + extra_width <= usize::MAX,
        ensures
            r.width == self.width,
            r.indent.block_indent == self.indent.block_indent,
            r.indent.alignment == self.offset + extra_width,
            r.offset == self.offset + extra_width,
    {
        let alignment = self.offset + extra_width;
        Shape {
            width: self.width,
            indent: Indent::new(self.indent.block_indent, alignment),
            offset: alignment,
        }
    }

    /// Block indentation by `extra_width`: into the block indent when there is
    /// no alignment, else into the alignment.
    pub fn block_indent(&self, extra_width: usize) -> (r: Shape)
        requires
            self.indent.alignment == 0 ==> self.indent.block_indent + extra_width <= usize::MAX,
            self.indent.alignment != 0 ==> self.indent.alignment + extra_width <= usize::MAX,
        ensures
            r.width == self.width,
            self.indent.alignment == 0 ==> r.indent.block_indent == self.indent.block_indent
                + extra_width && r.indent.alignment == 0 && r.offset == 0,
            self.indent.alignment != 0 ==> r.indent.block_indent == self.indent.block_indent
                && r.indent.alignment == self.indent.alignment + extra_width && r.offset
                == self.indent.alignment + extra_width,
    {
        if self.indent.alignment == 0 {
            Shape {
                width: self.width,
                indent: Indent::new(self.indent.block_indent + extra_width, 0),
                offset: 0,
            }
        } else {
            Shape {
                width: self.width,
                indent: self.indent + extra_width,
                offset: self.indent.alignment + extra_width,
            }
        }
    }

    pub fn block_left(&self, width: usize) -> (r: Option<Shape>)
        requires
            self.indent.alignment == 0 ==> self.indent.block_indent + width <= usize::MAX,
            self.indent.alignment != 0 ==> self.indent.alignment + width <= usize::MAX,
        ensures
            r == self.spec_block_indent(width).spec_sub_width(width),
            (r is Some) <==> width <= self.width,
    {
        self.block_indent(width).sub_width(width)
    }

    /// What `add_offset` returns.
    pub open spec fn spec_add_offset(self, extra_width: usize) -> Shape {
        Shape { offset: (self.offset + extra_width) as usize, ..self }
    }

    /// What `sub_width` returns.
    pub open spec fn spec_sub_width(self, width: usize) -> Option<Shape> {
        if width <= self.width {
            Some(Shape { width: (self.width - width) as usize, ..self })
        } else {
            None
        }
    }

    /// What `shrink_left` returns.
    pub open spec fn spec_shrink_left(self, width: usize) -> Option<Shape> {
        if width <= self.width {
            Some(
                Shape {
                    width: (self.width - width) as usize,
                    indent: Indent {
                        block_indent: self.indent.block_indent,
                        alignment: (self.indent.alignment + width) as usize,
                    },
                    offset: (self.offset + width) as usize,
                },
            )
        } else {
            None
        }
    }

    /// What `block_indent` returns.
    pub open spec fn spec_block_indent(self, extra_width: usize) -> Shape {
        if self.indent.alignment == 0 {
            Shape {
                width: self.width,
                indent: Indent { block_indent: (self.indent.block_indent + extra_width) as usize, alignment: 0 },
                offset: 0,
            }
        } else {
            Shape {
                width: self.width,
                indent: Indent { block_indent: self.indent.block_indent, alignment: (self.indent.alignment + extra_width) as usize },
                offset: (self.indent.alignment + extra_width) as usize,
            }
        }
    }

    pub fn add_offset(&self, extra_width: usize) -> (r: Shape)
        requires
            self.offset + extra_width <= usize::MAX,
        ensures
            r == self.spec_add_offset(extra_width),
    {
        Shape { offset: self.offset + extra_width, ..*self }
    }

    pub fn block(&self) -> (r: Shape)
        ensures
            r.width == self.width,
            r.indent.block_indent == self.indent.block_indent,
            r.indent.alignment == 0,
            r.offset == self.offset,
    {
        Shape { indent: self.indent.block_only(), ..*self }
    }

    /// The same shape `width` narrower, if it is that wide.
    pub fn sub_width(&self, width: usize) -> (r: Option<Shape>)
        ensures
            r == self.spec_sub_width(width),
    {
        if width <= self.width {
            Some(Shape { width: self.width - width, ..*self })
        } else {
            None
        }
    }

    /// `width` taken from the left: narrower, with indent and offset moved right.
    pub fn shrink_left(&self, width: usize) -> (r: Option<Shape>)
        requires
            width <= self.width ==> self.indent.alignment + width <= usize::MAX && self.offset
                + width <= usize::MAX,
        ensures
            r == self.spec_shrink_left(width),
    {
        if width <= self.width {
            Some(Shape { width: self.width - width, indent: self.indent + width, offset: self.offset + width })
        } else {
            None
        }
    }

    pub fn offset_left(&self, width: usize) -> (r: Option<Shape>)
        requires
            self.offset + width <= usize::MAX,
        ensures
            r == self.spec_add_offset(width).spec_sub_width(width),
    {
        self.add_offset(width).sub_width(width)
    }

    pub fn used_width(&self) -> (r: usize)
        requires
            self.spec_used_width() <= usize::MAX,
        ensures
            r == self.spec_used_width(),
    {
        self.indent.block_indent + self.offset
    }

    /// What is left of the maximum width to the right of this shape.
    pub fn rhs_overhead(&self, config: &Config) -> (r: usize)
        requires
            self.spec_used_width() + self.width <= usize::MAX,
        ensures
            r == sat_sub(config.max_width as int, self.spec_used_width() + self.width),
    {
        let used = self.used_width() + self.width;
        if config.max_width() >= used {
            config.max_width() - used
        } else {
            0
        }
    }
}

impl core::ops::Add for Indent {
    type Output = Indent;

    fn add(self, rhs: Indent) -> (r: Indent) {
        Indent {
            block_indent: self.block_indent + rhs.block_indent,
            alignment: self.alignment + rhs.alignment,
        }
    }
}

impl vstd::std_specs::ops::AddSpecImpl for Indent {
    open spec fn obeys_add_spec() -> bool {
        true
    }

    open spec fn add_req(self, rhs: Indent) -> bool {
        &&& self.block_indent + rhs.block_indent <= usize::MAX
        &&& self.alignment + rhs.alignment <= usize::MAX
    }

    open spec fn add_spec(self, rhs: Indent) -> Indent {
        Indent {
            block_indent: (self.block_indent + rhs.block_indent) as usize,
            alignment: (self.alignment + rhs.alignment) as usize,
        }
    }
}

impl core::ops::Sub for Indent {
    type Output = Indent;

    fn sub(self, rhs: Indent) -> (r: Indent) {
        Indent::new(self.block_indent - rhs.block_indent, self.alignment - rhs.alignment)
    }
}

impl vstd::std_specs::ops::SubSpecImpl for Indent {
    open spec fn obeys_sub_spec() -> bool {
        true
    }

    open spec fn sub_req(self, rhs: Indent) -> bool {
        &&& self.block_indent >= rhs.block_indent
        &&& self.alignment >= rhs.alignment
    }

    open spec fn sub_spec(self, rhs: Indent) -> Indent {
        Indent {
            block_indent: (self.block_indent - rhs.block_indent) as usize,
            alignment: (self.alignment - rhs.alignment) as usize,
        }
    }
}

impl core::ops::Add<usize> for Indent {
    type Output = Indent;

    fn add(self, rhs: usize) -> (r: Indent) {
        Indent::new(self.block_indent, self.alignment + rhs)
    }
}

impl vstd::std_specs::ops::AddSpecImpl<usize> for Indent {
    open spec fn obeys_add_spec() -> bool {
        true
    }

    open spec fn add_req(self, rhs: usize) -> bool {
        self.alignment + rhs <= usize::MAX
    }

    open spec fn add_spec(self, rhs: usize) -> Indent {
        Indent { block_indent: self.block_indent, alignment: (self.alignment + rhs) as usize }
    }
}

impl core::ops::Sub<usize> for Indent {
    type Output = Indent;

    fn sub(self, rhs: usize) -> (r: Indent) {
        Indent::new(self.block_indent, self.alignment - rhs)
    }
}

impl vstd::std_specs::ops::SubSpecImpl<usize> for Indent {
    open spec fn obeys_sub_spec() -> bool {
        true
    }

    open spec fn sub_req(self, rhs: usize) -> bool {
        self.alignment >= rhs
    }

    open spec fn sub_spec(self, rhs: usize) -> Indent {
        Indent { block_indent: self.block_indent, alignment: (self.alignment - rhs) as usize }
    }
}


/// Adding an indentation and then taking the same one away gives back the first.
pub proof fn lemma_indent_add_sub(a: Indent, b: Indent)
    requires
        a.block_indent + b.block_indent <= usize::MAX,
        a.alignment + b.alignment <= usize::MAX,
    ensures
        ({
            let s = <Indent as vstd::std_specs::ops::AddSpec<Indent>>::add_spec(a, b);
            <Indent as vstd::std_specs::ops::SubSpec<Indent>>::sub_req(s, b)
                && <Indent as vstd::std_specs::ops::SubSpec<Indent>>::sub_spec(s, b) == a
        }),
{
}

/// Adding alignment and then taking the same amount away gives back the indentation.
pub proof fn lemma_indent_add_sub_alignment(a: Indent, n: usize)
    requires
        a.alignment + n <= usize::MAX,
    ensures
        ({
            let s = <Indent as vstd::std_specs::ops::AddSpec<usize>>::add_spec(a, n);
            <Indent as vstd::std_specs::ops::SubSpec<usize>>::sub_req(s, n)
                && <Indent as vstd::std_specs::ops::SubSpec<usize>>::sub_spec(s, n) == a
        }),
{
}

/// One level deeper, then one level shallower, is where one started.
pub proof fn lemma_block_indent_unindent(i: Indent, config: Config)
    requires
        i.block_indent + config.tab_spaces <= usize::MAX,
    ensures
        i.deeper(config).shallower(config) == i,
{
}

/// The text of an indentation has one character per column with spaces, and
/// one per tab then one per column of alignment with tabs.
pub proof fn lemma_indent_text_len(i: Indent, config: Config)
    requires
        config.hard_tabs ==> config.tab_spaces > 0,
    ensures
        !config.hard_tabs ==> i.spec_text(config).len() == i.spec_width(),
        config.hard_tabs ==> i.spec_text(config).len() == i.block_indent / config.tab_spaces
            + i.alignment,
{
}

/// The indentation of a width is that width, whatever the tab setting, and
/// its block indent is a whole number of tabs' widths.
pub proof fn lemma_from_width_width(config: Config, w: usize)
    requires
        config.tab_spaces > 0,
    ensures
        (config.tab_spaces * (w / config.tab_spaces)) + w % config.tab_spaces == w,
        (config.tab_spaces * (w / config.tab_spaces)) % (config.tab_spaces as int) == 0,
{
    vstd::arithmetic::div_mod::lemma_fundamental_div_mod(w as int, config.tab_spaces as int);
    vstd::arithmetic::div_mod::lemma_mod_multiples_basic(
        (w / config.tab_spaces) as int,
        config.tab_spaces as int,
    );
}


/// With tabs, the block indent of a width is a whole number of tabs; one level
/// deeper or shallower keeps a block indent that is a whole number of tabs so.
pub proof fn lemma_block_indent_whole_tabs(i: Indent, config: Config, w: usize)
    requires
        config.tab_spaces > 0,
        i.block_indent % config.tab_spaces == 0,
        i.block_indent + config.tab_spaces <= usize::MAX,
    ensures
        (config.tab_spaces * (w / config.tab_spaces)) % (config.tab_spaces as int) == 0,
        i.deeper(config).block_indent % config.tab_spaces == 0,
        i.shallower(config).block_indent % config.tab_spaces == 0,
{
    vstd::arithmetic::div_mod::lemma_mod_multiples_basic(
        (w / config.tab_spaces) as int,
        config.tab_spaces as int,
    );
    vstd::arithmetic::div_mod::lemma_mod_add_multiples_vanish(
        i.block_indent as int,
        config.tab_spaces as int,
    );
    if i.block_indent >= config.tab_spaces {
        vstd::arithmetic::div_mod::lemma_mod_sub_multiples_vanish(
            i.block_indent as int,
            config.tab_spaces as int,
        );
    }
}

} // verus!
