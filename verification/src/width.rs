//! Widths of formatted code, as the formatter measures them: a piece of code
//! either fits on a single line of some width, or spans several lines, of
//! which only the first and the last line's widths matter for what can go
//! before and after it.
//!
//! Widths above [`MAX_WIDTH`] are not tracked: a single line that is too long
//! counts as multiline, and a first or last line that is too long has no
//! width.

use crate::chars::join_chars;
use crate::string_to_rcst::{lemma_span, lemma_span_step, lemma_span_stop, not_newline_pred, span};
use vstd::prelude::*;
use vstd::std_specs::convert::FromSpecImpl;
use vstd::std_specs::ops::{AddSpecImpl, SubSpecImpl};

verus! {

/// The maximum width of a line.
pub const MAX_WIDTH: usize = 100;

// ----------------------------------------------------------------------------
// Indentation

/// A number of indentation levels of two spaces each.
#[derive(Clone, Copy, Debug, PartialEq, Eq, Structural)]
pub struct Indentation(pub usize);

impl Indentation {
    /// One level deeper.
    pub open spec fn deeper(self) -> Indentation {
        Indentation((self.0 + 1) as usize)
    }

    /// One level less deep.
    pub open spec fn shallower(self) -> Indentation {
        Indentation((self.0 - 1) as usize)
    }

    /// The number of columns the indentation takes.
    pub open spec fn columns(self) -> int {
        2 * self.0
    }

    /// The width that the indentation takes.
    pub fn width(self) -> (res: SinglelineWidth)
        requires
            2 * self.0 <= usize::MAX,
        ensures
            res.0 == self.columns(),
    {
        SinglelineWidth(self.0 * 2)
    }

    pub fn is_indented(self) -> (res: bool)
        ensures
            res == (self.0 > 0),
    {
        self.0 > 0
    }

    /// One level deeper.
    pub fn with_indent(self) -> (res: Self)
        requires
            self.0 < usize::MAX,
        ensures
            res == self.deeper(),
            res.0 == self.0 + 1,
    {
        Indentation(self.0 + 1)
    }

    /// One level less deep.
    pub fn with_dedent(self) -> (res: Self)
        requires
            self.0 > 0,
        ensures
            res == self.shallower(),
            res.0 == self.0 - 1,
    {
        Indentation(self.0 - 1)
    }

    /// The indentation as it is written: two spaces per level.
    pub fn to_string(self) -> (res: String)
        requires
            2 * self.0 <= usize::MAX,
        ensures
            res@ == Seq::new(2 * self.0 as nat, |i: int| ' '),
    {
        let n = self.0 * 2;
        let mut spaces: Vec<char> = Vec::new();
        let mut i: usize = 0;
        while i < n
            invariant
                i <= n,
                spaces@ == Seq::new(i as nat, |j: int| ' '),
            decreases n - i,
        {
            spaces.push(' ');
            i = i + 1;
            proof {
                assert(spaces@ =~= Seq::new(i as nat, |j: int| ' '));
            }
        }
        join_chars(spaces)
    }
}

impl Default for Indentation {
    fn default() -> (res: Self)
        ensures
            res.0 == 0,
    {
        Indentation(0)
    }
}

impl From<usize> for Indentation {
    fn from(levels: usize) -> (res: Self) {
        Indentation(levels)
    }
}

impl FromSpecImpl<usize> for Indentation {
    open spec fn obeys_from_spec() -> bool {
        true
    }

    open spec fn from_spec(levels: usize) -> Self {
        Indentation(levels)
    }
}

// ----------------------------------------------------------------------------
// SinglelineWidth

/// The width of a single line.
#[derive(Clone, Copy, Debug, PartialEq, Eq, Structural, PartialOrd, Ord)]
pub struct SinglelineWidth(pub usize);

impl SinglelineWidth {
    /// The width of a space.
    pub fn space() -> (res: Self)
        ensures
            res.0 == 1,
    {
        SinglelineWidth(1)
    }

    /// The width of a percent sign.
    pub fn percent() -> (res: Self)
        ensures
            res.0 == 1,
    {
        SinglelineWidth(1)
    }

    pub fn new_const(width: usize) -> (res: Self)
        ensures
            res.0 == width,
    {
        SinglelineWidth(width)
    }

    pub fn is_empty(self) -> (res: bool)
        ensures
            res == (self.0 == 0),
    {
        self.0 == 0
    }
}

impl Default for SinglelineWidth {
    fn default() -> (res: Self)
        ensures
            res.0 == 0,
    {
        SinglelineWidth(0)
    }
}

impl From<usize> for SinglelineWidth {
    fn from(width: usize) -> (res: Self) {
        SinglelineWidth(width)
    }
}

impl FromSpecImpl<usize> for SinglelineWidth {
    open spec fn obeys_from_spec() -> bool {
        true
    }

    open spec fn from_spec(width: usize) -> Self {
        SinglelineWidth(width)
    }
}

impl core::ops::Add for SinglelineWidth {
    type Output = SinglelineWidth;

    fn add(self, rhs: SinglelineWidth) -> (res: SinglelineWidth) {
        SinglelineWidth(self.0 + rhs.0)
    }
}

impl AddSpecImpl for SinglelineWidth {
    open spec fn obeys_add_spec() -> bool {
        true
    }

    open spec fn add_req(self, rhs: SinglelineWidth) -> bool {
        self.0 + rhs.0 <= usize::MAX
    }

    open spec fn add_spec(self, rhs: SinglelineWidth) -> SinglelineWidth {
        SinglelineWidth((self.0 + rhs.0) as usize)
    }
}

impl core::ops::Sub for SinglelineWidth {
    type Output = SinglelineWidth;

    fn sub(self, rhs: SinglelineWidth) -> (res: SinglelineWidth) {
        SinglelineWidth(self.0 - rhs.0)
    }
}

impl SubSpecImpl for SinglelineWidth {
    open spec fn obeys_sub_spec() -> bool {
        true
    }

    open spec fn sub_req(self, rhs: SinglelineWidth) -> bool {
        self.0 >= rhs.0
    }

    open spec fn sub_spec(self, rhs: SinglelineWidth) -> SinglelineWidth {
        SinglelineWidth((self.0 - rhs.0) as usize)
    }
}

impl core::ops::Add<Width> for SinglelineWidth {
    type Output = Width;

    fn add(self, rhs: Width) -> (res: Width) {
        Width::from(self).followed_by(rhs)
    }
}

impl AddSpecImpl<Width> for SinglelineWidth {
    open spec fn obeys_add_spec() -> bool {
        true
    }

    open spec fn add_req(self, rhs: Width) -> bool {
        width_add_req(width_of(self.0 as int), rhs)
    }

    open spec fn add_spec(self, rhs: Width) -> Width {
        width_add(width_of(self.0 as int), rhs)
    }
}

// ----------------------------------------------------------------------------
// Width

/// The width of a piece of code.
#[derive(Clone, Copy, Debug, PartialEq, Eq, Structural)]
pub enum Width {
    Singleline(SinglelineWidth),
    Multiline {
        /// Only [Some] if the expression can be used as a trailing multiline
        /// expression, e.g., a trailing function.
        first_line_width: Option<SinglelineWidth>,
        last_line_width: Option<SinglelineWidth>,
    },
}

/// A single line of the given width, or a multiline width without line widths
/// if it is too long.
pub open spec fn width_of(width: int) -> Width {
    if width > MAX_WIDTH {
        Width::Multiline { first_line_width: None, last_line_width: None }
    } else {
        Width::Singleline(SinglelineWidth(width as usize))
    }
}

/// The sum of two line widths, if both are known and it is not too long.
pub open spec fn line_width_add(lhs: Option<SinglelineWidth>, rhs: Option<SinglelineWidth>) -> Option<
    SinglelineWidth,
> {
    match (lhs, rhs) {
        (Some(l), Some(r)) => if l.0 + r.0 <= MAX_WIDTH {
            Some(SinglelineWidth((l.0 + r.0) as usize))
        } else {
            None
        },
        _ => None,
    }
}

/// The width of one piece of code followed by another on the same line: the
/// line where they meet holds the end of the first and the start of the
/// second.
pub open spec fn width_add(lhs: Width, rhs: Width) -> Width {
    match (lhs, rhs) {
        (Width::Singleline(l), Width::Singleline(r)) => width_of(l.0 + r.0),
        (Width::Singleline(l), Width::Multiline { first_line_width, last_line_width }) =>
            Width::Multiline {
            first_line_width: line_width_add(Some(l), first_line_width),
            last_line_width,
        },
        (Width::Multiline { first_line_width, last_line_width }, Width::Singleline(r)) =>
            Width::Multiline {
            first_line_width,
            last_line_width: line_width_add(last_line_width, Some(r)),
        },
        (
            Width::Multiline { first_line_width, .. },
            Width::Multiline { last_line_width, .. },
        ) => Width::Multiline { first_line_width, last_line_width },
    }
}

/// The sums that adding two widths computes fit into `usize`.
pub open spec fn width_add_req(lhs: Width, rhs: Width) -> bool {
    match (lhs, rhs) {
        (Width::Singleline(l), Width::Singleline(r)) => l.0 + r.0 <= usize::MAX,
        (Width::Singleline(l), Width::Multiline { first_line_width, .. }) => match first_line_width {
            Some(f) => l.0 + f.0 <= usize::MAX,
            None => true,
        },
        (Width::Multiline { last_line_width, .. }, Width::Singleline(r)) => match last_line_width {
            Some(w) => w.0 + r.0 <= usize::MAX,
            None => true,
        },
        _ => true,
    }
}

/// Every line width that the width records is at most [`MAX_WIDTH`], as for
/// every width that an addition or a conversion creates.
pub open spec fn is_bounded(width: Width) -> bool {
    match width {
        Width::Singleline(w) => w.0 <= MAX_WIDTH,
        Width::Multiline { first_line_width, last_line_width } => (first_line_width matches Some(
            f,
        ) ==> f.0 <= MAX_WIDTH) && (last_line_width matches Some(l) ==> l.0 <= MAX_WIDTH),
    }
}

/// The sum of two line widths, if both are known and it is not too long.
fn add_singleline(lhs: Option<SinglelineWidth>, rhs: Option<SinglelineWidth>) -> (res: Option<
    SinglelineWidth,
>)
    requires
        lhs is Some && rhs is Some ==> (lhs->0).0 + (rhs->0).0 <= usize::MAX,
    ensures
        res == line_width_add(lhs, rhs),
{
    match (lhs, rhs) {
        (Some(l), Some(r)) => {
            let sum = l.0 + r.0;
            if sum <= MAX_WIDTH {
                Some(SinglelineWidth(sum))
            } else {
                None
            }
        },
        _ => None,
    }
}

impl Width {
    /// The maximum width of a line.
    pub fn max() -> (res: SinglelineWidth)
        ensures
            res.0 == MAX_WIDTH,
    {
        SinglelineWidth(MAX_WIDTH)
    }

    /// The width of a line break: two empty lines.
    pub fn newline() -> (res: Width)
        ensures
            res == (Width::Multiline {
                first_line_width: Some(SinglelineWidth(0)),
                last_line_width: Some(SinglelineWidth(0)),
            }),
    {
        Width::Multiline {
            first_line_width: Some(SinglelineWidth(0)),
            last_line_width: Some(SinglelineWidth(0)),
        }
    }

    pub fn multiline(
        first_line_width: Option<SinglelineWidth>,
        last_line_width: Option<SinglelineWidth>,
    ) -> (res: Self)
        ensures
            res == (Width::Multiline { first_line_width, last_line_width }),
    {
        Width::Multiline { first_line_width, last_line_width }
    }

    /// A single line of the given width if it is at most `max_width`, and a
    /// multiline width without line widths otherwise.
    pub fn from_width_and_max(width: SinglelineWidth, max_width: SinglelineWidth) -> (res: Self)
        ensures
            res == (if width.0 > max_width.0 {
                Width::Multiline { first_line_width: None, last_line_width: None }
            } else {
                Width::Singleline(width)
            }),
    {
        if width.0 > max_width.0 {
            Width::Multiline { first_line_width: None, last_line_width: None }
        } else {
            Width::Singleline(width)
        }
    }

    pub fn is_empty(&self) -> (res: bool)
        ensures
            res == (*self matches Width::Singleline(w) && w.0 == 0),
    {
        match self {
            Width::Singleline(width) => width.is_empty(),
            Width::Multiline { .. } => false,
        }
    }

    pub fn is_singleline(&self) -> (res: bool)
        ensures
            res == (*self is Singleline),
    {
        match self {
            Width::Singleline(_) => true,
            Width::Multiline { .. } => false,
        }
    }

    pub fn first_line_width(&self) -> (res: Option<SinglelineWidth>)
        ensures
            res == (match *self {
                Width::Singleline(w) => Some(w),
                Width::Multiline { first_line_width, .. } => first_line_width,
            }),
    {
        match self {
            Width::Singleline(width) => Some(*width),
            Width::Multiline { first_line_width, .. } => *first_line_width,
        }
    }

    /// The same width, but not usable as a trailing multiline expression.
    pub fn without_first_line_width(&self) -> (res: Width)
        ensures
            res == (match *self {
                Width::Singleline(w) => Width::Singleline(w),
                Width::Multiline { last_line_width, .. } => Width::Multiline {
                    first_line_width: None,
                    last_line_width,
                },
            }),
    {
        match self {
            Width::Singleline(width) => Width::Singleline(*width),
            Width::Multiline { last_line_width, .. } => Width::Multiline {
                first_line_width: None,
                last_line_width: *last_line_width,
            },
        }
    }

    /// Whether this fits on a single line after the indentation.
    pub fn fits(&self, indentation: Indentation) -> (res: bool)
        requires
            2 * indentation.0 <= MAX_WIDTH,
        ensures
            res == (*self matches Width::Singleline(w) && w.0 + 2 * indentation.0 <= MAX_WIDTH),
    {
        self.fits_in(Width::max() - indentation.width())
    }

    /// Whether this fits on a single line of at most `max_width`.
    pub fn fits_in(&self, max_width: SinglelineWidth) -> (res: bool)
        ensures
            res == (*self matches Width::Singleline(w) && w.0 <= max_width.0),
    {
        match self {
            Width::Singleline(width) => width.0 <= max_width.0,
            Width::Multiline { .. } => false,
        }
    }

    /// Whether the last line of this, after the indentation if this is a
    /// single line, still fits if the extra width follows it. A multiline
    /// extra width never fits.
    pub fn last_line_fits(&self, indentation: Indentation, extra_width: Width) -> (res: bool)
        requires
            2 * indentation.0 <= usize::MAX,
            extra_width is Singleline ==> match *self {
                Width::Singleline(w) => 2 * indentation.0 + w.0 + (extra_width->0).0
                    <= usize::MAX,
                Width::Multiline { last_line_width, .. } => last_line_width is Some
                    && (last_line_width->0).0 + (extra_width->0).0 <= usize::MAX,
            },
        ensures
            res == match extra_width {
                Width::Singleline(extra) => match *self {
                    Width::Singleline(w) => 2 * indentation.0 + w.0 + extra.0 <= MAX_WIDTH,
                    Width::Multiline { last_line_width, .. } => (last_line_width->0).0 + extra.0
                        <= MAX_WIDTH,
                },
                Width::Multiline { .. } => false,
            },
    {
        let extra_width = match extra_width {
            Width::Singleline(extra_width) => extra_width,
            Width::Multiline { .. } => {
                return false;
            },
        };
        match self {
            Width::Singleline(self_width) => {
                (indentation.width() + *self_width + extra_width).0 <= MAX_WIDTH
            },
            Width::Multiline { last_line_width, .. } => {
                (last_line_width.unwrap() + extra_width).0 <= MAX_WIDTH
            },
        }
    }

    /// The width of this followed by `rhs` on the same line.
    pub fn followed_by(self, rhs: Width) -> (res: Width)
        requires
            width_add_req(self, rhs),
        ensures
            res == width_add(self, rhs),
    {
        match (self, rhs) {
            (Width::Singleline(lhs), Width::Singleline(rhs)) => Width::from(lhs + rhs),
            (Width::Singleline(lhs), Width::Multiline { first_line_width, last_line_width }) =>
                Width::multiline(add_singleline(Some(lhs), first_line_width), last_line_width),
            (Width::Multiline { first_line_width, last_line_width }, Width::Singleline(rhs)) =>
                Width::multiline(first_line_width, add_singleline(last_line_width, Some(rhs))),
            (
                Width::Multiline { first_line_width, .. },
                Width::Multiline { last_line_width, .. },
            ) => Width::multiline(first_line_width, last_line_width),
        }
    }

    /// The width of all the pieces, one after another on the same line.
    pub fn sum(widths: &[Width]) -> (res: Width)
        requires
            forall|i: int|
                0 <= i < widths@.len() ==> width_add_req(
                    width_sum(#[trigger] widths@.take(i)),
                    widths@[i],
                ),
        ensures
            res == width_sum(widths@),
    {
        let mut acc = Width::default();
        let mut i: usize = 0;
        while i < widths.len()
            invariant
                i <= widths.len(),
                forall|j: int|
                    0 <= j < widths@.len() ==> width_add_req(
                        width_sum(#[trigger] widths@.take(j)),
                        widths@[j],
                    ),
                acc == width_sum(widths@.take(i as int)),
            decreases widths.len() - i,
        {
            proof {
                assert(widths@.take(i + 1).drop_last() =~= widths@.take(i as int));
                assert(width_add_req(width_sum(widths@.take(i as int)), widths@[i as int]));
            }
            acc = acc.followed_by(widths[i]);
            i = i + 1;
        }
        proof {
            assert(widths@.take(widths.len() as int) =~= widths@);
        }
        acc
    }
}

/// The width of pieces one after another, starting from an empty line.
pub open spec fn width_sum(widths: Seq<Width>) -> Width
    decreases widths.len(),
{
    if widths.len() == 0 {
        Width::Singleline(SinglelineWidth(0))
    } else {
        width_add(width_sum(widths.drop_last()), widths.last())
    }
}

/// Adding bounded widths computes no sum that exceeds `usize`, and gives a
/// bounded width.
pub proof fn lemma_add_bounded(lhs: Width, rhs: Width)
    requires
        is_bounded(lhs),
        is_bounded(rhs),
    ensures
        width_add_req(lhs, rhs),
        is_bounded(width_add(lhs, rhs)),
{
}

impl Default for Width {
    fn default() -> (res: Self)
        ensures
            res == Width::Singleline(SinglelineWidth(0)),
    {
        Width::Singleline(SinglelineWidth(0))
    }
}

impl From<usize> for Width {
    fn from(width: usize) -> (res: Self) {
        if width > MAX_WIDTH {
            Width::Multiline { first_line_width: None, last_line_width: None }
        } else {
            Width::Singleline(SinglelineWidth(width))
        }
    }
}

impl FromSpecImpl<usize> for Width {
    open spec fn obeys_from_spec() -> bool {
        true
    }

    open spec fn from_spec(width: usize) -> Self {
        width_of(width as int)
    }
}

impl From<SinglelineWidth> for Width {
    fn from(width: SinglelineWidth) -> (res: Self) {
        Self::from_width_and_max(width, Width::max())
    }
}

impl FromSpecImpl<SinglelineWidth> for Width {
    open spec fn obeys_from_spec() -> bool {
        true
    }

    open spec fn from_spec(width: SinglelineWidth) -> Self {
        width_of(width.0 as int)
    }
}

impl core::ops::Add<Width> for Width {
    type Output = Width;

    fn add(self, rhs: Width) -> (res: Width) {
        self.followed_by(rhs)
    }
}

impl AddSpecImpl<Width> for Width {
    open spec fn obeys_add_spec() -> bool {
        true
    }

    open spec fn add_req(self, rhs: Width) -> bool {
        width_add_req(self, rhs)
    }

    open spec fn add_spec(self, rhs: Width) -> Width {
        width_add(self, rhs)
    }
}

impl core::ops::Add<SinglelineWidth> for Width {
    type Output = Width;

    fn add(self, rhs: SinglelineWidth) -> (res: Width) {
        self.followed_by(Width::from(rhs))
    }
}

impl AddSpecImpl<SinglelineWidth> for Width {
    open spec fn obeys_add_spec() -> bool {
        true
    }

    open spec fn add_req(self, rhs: SinglelineWidth) -> bool {
        width_add_req(self, width_of(rhs.0 as int))
    }

    open spec fn add_spec(self, rhs: SinglelineWidth) -> Width {
        width_add(self, width_of(rhs.0 as int))
    }
}

// ----------------------------------------------------------------------------
// Laws

/// Indenting undoes dedenting and the other way round, and dedenting takes
/// the two columns of one level off the indentation's width.
pub proof fn lemma_indent_dedent(i: Indentation)
    requires
        0 < i.0 < usize::MAX,
    ensures
        i.shallower().deeper() == i,
        i.deeper().shallower() == i,
        i.shallower().columns() + 2 == i.columns(),
        i.deeper().columns() == i.columns() + 2,
{
}

/// Adding widths is associative: how a sequence of pieces is grouped does not
/// change its width.
pub proof fn lemma_width_add_associative(a: Width, b: Width, c: Width)
    ensures
        width_add(width_add(a, b), c) == width_add(a, width_add(b, c)),
{
}

/// The empty width is neutral: adding it before or after a bounded width
/// leaves that width unchanged.
pub proof fn lemma_width_add_empty(w: Width)
    requires
        is_bounded(w),
    ensures
        width_add(Width::Singleline(SinglelineWidth(0)), w) == w,
        width_add(w, Width::Singleline(SinglelineWidth(0))) == w,
{
}

/// Once a piece of code spans several lines, adding more never makes it a
/// single line again.
pub proof fn lemma_width_add_multiline(a: Width, b: Width)
    requires
        a is Multiline || b is Multiline,
    ensures
        width_add(a, b) is Multiline,
{
}

// ----------------------------------------------------------------------------
// The width of a text

/// The display width of a text, as the `unicode-width` crate computes it.
pub uninterp spec fn unicode_str_width(s: Seq<char>) -> usize;

/// Calls `UnicodeWidthStr::width` of the `unicode-width` crate, which returns
/// the displayed width of the string in columns (a function of the string
/// alone); the contract names that result.
#[verifier::external_body]
fn unicode_width(s: &str) -> (res: usize)
    ensures
        res == unicode_str_width(s@),
{
    unicode_width::UnicodeWidthStr::width(s)
}

/// The number of characters at the end of `s` that satisfy `p`.
pub open spec fn trailing_span(s: Seq<char>, p: spec_fn(char) -> bool) -> nat
    decreases s.len(),
{
    if s.len() > 0 && p(s.last()) {
        1 + trailing_span(s.drop_last(), p)
    } else {
        0
    }
}

/// The width of a text: a single line of its display width, or, if it
/// contains line breaks, the display widths of its first and last line.
pub open spec fn text_width(s: Seq<char>) -> Width {
    let first = span(s, not_newline_pred());
    if first == s.len() {
        Width::Singleline(SinglelineWidth(unicode_str_width(s)))
    } else {
        let last = trailing_span(s, not_newline_pred());
        Width::Multiline {
            first_line_width: Some(SinglelineWidth(unicode_str_width(s.take(first as int)))),
            last_line_width: Some(
                SinglelineWidth(unicode_str_width(s.skip(s.len() - last))),
            ),
        }
    }
}

/// The display width of the characters.
fn chars_width(chars: Vec<char>) -> (res: usize)
    ensures
        res == unicode_str_width(chars@),
{
    let s = join_chars(chars);
    unicode_width(s.as_str())
}

/// Measuring the width of text.
pub trait StringWidth {
    fn width(&self) -> Width;
}

impl StringWidth for str {
    fn width(&self) -> (res: Width)
        ensures
            res == text_width(self@),
    {
        let n = self.unicode_len();
        let mut first_line: Vec<char> = Vec::new();
        let mut i: usize = 0;
        proof {
            lemma_span(self@, not_newline_pred());
            assert(self@.skip(0) =~= self@);
        }
        while i < n && self.get_char(i) != '\n'
            invariant
                n == self@.len(),
                i <= n,
                first_line@ == self@.take(i as int),
                span(self@, not_newline_pred()) == i + span(self@.skip(i as int), not_newline_pred()),
            decreases n - i,
        {
            proof {
                lemma_span_step(self@, not_newline_pred(), i as int);
            }
            first_line.push(self.get_char(i));
            i = i + 1;
            proof {
                assert(first_line@ =~= self@.take(i as int));
            }
        }
        proof {
            lemma_span_stop(self@, not_newline_pred(), i as int);
        }
        if i == n {
            proof {
                assert(self@.take(n as int) =~= self@);
            }
            return Width::Singleline(SinglelineWidth(chars_width(first_line)));
        }
        let mut j: usize = n;
        proof {
            assert(self@.take(n as int) =~= self@);
        }
        while j > 0 && self.get_char(j - 1) != '\n'
            invariant
                n == self@.len(),
                j <= n,
                trailing_span(self@, not_newline_pred()) == (n - j) + trailing_span(
                    self@.take(j as int),
                    not_newline_pred(),
                ),
            decreases j,
        {
            proof {
                assert(self@.take(j as int).drop_last() =~= self@.take(j - 1));
            }
            j = j - 1;
        }
        let mut last_line: Vec<char> = Vec::new();
        let mut k: usize = j;
        while k < n
            invariant
                n == self@.len(),
                j <= k <= n,
                last_line@ == self@.subrange(j as int, k as int),
            decreases n - k,
        {
            last_line.push(self.get_char(k));
            k = k + 1;
            proof {
                assert(last_line@ =~= self@.subrange(j as int, k as int));
            }
        }
        proof {
            assert(self@.subrange(j as int, n as int) =~= self@.skip(j as int));
        }
        Width::Multiline {
            first_line_width: Some(SinglelineWidth(chars_width(first_line))),
            last_line_width: Some(SinglelineWidth(chars_width(last_line))),
        }
    }
}

} // verus!
