use crate::config::{Child, Direction, Split, WidgetKind};
use crate::text::trimmed;
use ratatui::layout::{Constraint as RC, Direction as RD, Layout, Rect as RR};
use vstd::prelude::*;

verus! {

/// A rectangle of terminal cells: its top-left corner and its size.
#[derive(Clone, Copy, Debug, PartialEq, Eq, Structural)]
pub struct Rect {
    pub x: u16,
    pub y: u16,
    pub width: u16,
    pub height: u16,
}

/// `a + b`, saturating at `u16::MAX`.
pub open spec fn sat_add(a: u16, b: u16) -> u16 {
    if a + b > u16::MAX {
        u16::MAX
    } else {
        (a + b) as u16
    }
}

/// The rectangle `Rect::new` builds.
pub open spec fn spec_rect_new(x: u16, y: u16, width: u16, height: u16) -> Rect {
    Rect {
        x,
        y,
        width: if width > u16::MAX - x { (u16::MAX - x) as u16 } else { width },
        height: if height > u16::MAX - y { (u16::MAX - y) as u16 } else { height },
    }
}

impl Rect {
    /// A rectangle whose size is clipped so that it ends within the `u16` range.
    pub fn new(x: u16, y: u16, width: u16, height: u16) -> (r: Rect)
        ensures
            r == spec_rect_new(x, y, width, height),
    {
        let max_width = u16::MAX - x;
        let max_height = u16::MAX - y;
        Rect {
            x,
            y,
            width: if width > max_width { max_width } else { width },
            height: if height > max_height { max_height } else { height },
        }
    }

    #[verifier::allow_in_spec]
    pub fn left(self) -> u16
        returns
            self.x,
    {
        self.x
    }

    /// One past the last column, saturating at `u16::MAX`.
    #[verifier::allow_in_spec]
    pub fn right(self) -> u16
        returns
            sat_add(self.x, self.width),
    {
        self.x.saturating_add(self.width)
    }

    #[verifier::allow_in_spec]
    pub fn top(self) -> u16
        returns
            self.y,
    {
        self.y
    }

    /// One past the last row, saturating at `u16::MAX`.
    #[verifier::allow_in_spec]
    pub fn bottom(self) -> u16
        returns
            sat_add(self.y, self.height),
    {
        self.y.saturating_add(self.height)
    }
}


/// How a layout slot is sized along its split's direction.
#[derive(Debug, Clone, Copy, PartialEq, Eq, Structural)]
pub enum Constraint {
    Length(u16),
    Percentage(u16),
    Ratio(u32, u32),
    Fill(u16),
}

/// A size that cannot be turned into a constraint: whether it looked like a
/// percentage (it ended in `%`), and the trimmed text.
#[derive(Debug, Clone)]
pub enum SizeError {
    InvalidPercentage(String),
    InvalidKeyword(String),
}

impl View for SizeError {
    type V = (bool, Seq<char>);

    open spec fn view(&self) -> (bool, Seq<char>) {
        match self {
            SizeError::InvalidPercentage(k) => (true, k@),
            SizeError::InvalidKeyword(k) => (false, k@),
        }
    }
}

/// `r` lies within `a`.
pub open spec fn within(r: Rect, a: Rect) -> bool {
    &&& a.x <= r.x
    &&& r.x + r.width <= a.x + a.width
    &&& a.y <= r.y
    &&& r.y + r.height <= a.y + a.height
}

/// `r` keeps the rows of `a` (a horizontal split) or its columns (a vertical
/// one).
pub open spec fn kept(d: Direction, r: Rect, a: Rect) -> bool {
    match d {
        Direction::Horizontal => r.y == a.y && r.height == a.height,
        Direction::Vertical => r.x == a.x && r.width == a.width,
    }
}

/// Splits `area` along `direction` with ratatui's `Layout::split`.
///
/// Trusted: `Layout::split` on a plain layout (no margin, no spacing) gives one
/// rectangle per constraint, each within the area (the solver keeps every
/// segment boundary between the area's start and end); a horizontal split
/// keeps the area's rows, a vertical one its columns. Which sizes the solver
/// picks is not stated: it walks hash maps whose order differs between
/// processes.
#[verifier::external_body]
pub(crate) fn split_area(direction: Direction, constraints: &Vec<Constraint>, area: Rect) -> (rects: Vec<Rect>)
    ensures
        rects@.len() == constraints@.len(),
        forall|i: int| 0 <= i < rects@.len() ==> within(#[trigger] rects@[i], area),
        forall|i: int| 0 <= i < rects@.len() ==> kept(direction, #[trigger] rects@[i], area),
{
    let cs = constraints.iter().map(|c| match *c {
        Constraint::Length(n) => RC::Length(n),
        Constraint::Percentage(p) => RC::Percentage(p),
        Constraint::Ratio(a, b) => RC::Ratio(a, b),
        Constraint::Fill(w) => RC::Fill(w),
    });
    let whole = RR { x: area.x, y: area.y, width: area.width, height: area.height };
    let dir = if direction == Direction::Horizontal { RD::Horizontal } else { RD::Vertical };
    let rects = Layout::default().direction(dir).constraints(cs).split(whole);
    rects.iter().map(|r| Rect { x: r.x, y: r.y, width: r.width, height: r.height }).collect()
}

/// What a size turns into: a constraint, or the error.
pub open spec fn size_result(s: crate::config::SizeSpec) -> Result<Constraint, (bool, Seq<char>)> {
    match s {
        crate::config::SizeSpec::Length { length } => Ok(Constraint::Length(length)),
        crate::config::SizeSpec::Ratio { ratio } => Ok(Constraint::Ratio(ratio@[0], ratio@[1])),
        crate::config::SizeSpec::Keyword(k) => {
            let t = trimmed(k@);
            if t.len() > 0 && t[t.len() - 1] == '%' {
                match crate::text::parse_u16(trimmed(t.subrange(0, t.len() - 1))) {
                    Some(v) => Ok(Constraint::Percentage(v)),
                    None => Err((true, t)),
                }
            } else if crate::text::eq_ignore_ascii_case(t, seq!['f', 'i', 'l', 'l'])
                || crate::text::eq_ignore_ascii_case(t, seq!['m', 'i', 'n']) {
                Ok(Constraint::Fill(1))
            } else {
                Err((false, t))
            }
        },
    }
}

/// The first size among `cs` that cannot be turned into a constraint.
pub open spec fn sizes_error(cs: Seq<Child>) -> Option<(bool, Seq<char>)>
    decreases cs.len(),
{
    if cs.len() == 0 {
        None
    } else {
        match size_result(cs[0].size) {
            Err(e) => Some(e),
            Ok(_) => sizes_error(cs.subrange(1, cs.len() as int)),
        }
    }
}

/// The size error a layout tree is refused for: within a split, its own
/// children's sizes first, then the nested splits in order.
pub open spec fn tree_size_error(s: Split) -> Option<(bool, Seq<char>)>
    decreases s, 1int,
{
    match sizes_error(s.children@) {
        Some(e) => Some(e),
        None => {
            proof {
                assert(decreases_to!(s => s.children));
                assert(decreases_to!(s.children => s.children@));
            }
            nested_size_error(s.children@)
        },
    }
}

pub open spec fn nested_size_error(cs: Seq<Child>) -> Option<(bool, Seq<char>)>
    decreases cs, 0int,
{
    if cs.len() == 0 {
        None
    } else {
        proof {
            assert(decreases_to!(cs => cs[0]));
            assert(decreases_to!(cs => cs.subrange(1, cs.len() as int)));
        }
        let head = match cs[0].widget {
            Some(_) => None,
            None => match cs[0].split {
                Some(n) => tree_size_error(n),
                None => None,
            },
        };
        match head {
            Some(e) => Some(e),
            None => nested_size_error(cs.subrange(1, cs.len() as int)),
        }
    }
}

/// The widgets of a layout tree in the order they are placed: depth first,
/// children in order; a child with a widget is a leaf.
pub open spec fn widget_kinds(s: Split) -> Seq<WidgetKind>
    decreases s, 1int,
{
    proof {
        assert(decreases_to!(s => s.children));
        assert(decreases_to!(s.children => s.children@));
    }
    children_kinds(s.children@)
}

pub open spec fn children_kinds(cs: Seq<Child>) -> Seq<WidgetKind>
    decreases cs, 0int,
{
    if cs.len() == 0 {
        Seq::empty()
    } else {
        proof {
            assert(decreases_to!(cs => cs[0]));
            assert(decreases_to!(cs => cs.subrange(1, cs.len() as int)));
        }
        let head = match cs[0].widget {
            Some(w) => seq![w],
            None => match cs[0].split {
                Some(n) => widget_kinds(n),
                None => Seq::empty(),
            },
        };
        head + children_kinds(cs.subrange(1, cs.len() as int))
    }
}

/// How one split of the layout tree was carried out: the direction and the
/// constraints handed to the layout solver, the area it split, the
/// rectangles it gave back, and how each nested split was carried out (by
/// child, `None` for the others).
pub struct SplitOutcome {
    pub direction: Direction,
    pub constraints: Seq<Constraint>,
    pub area: Rect,
    pub rects: Seq<Rect>,
    pub nested: Seq<Option<SplitOutcome>>,
}

/// The constraints of the children's sizes, in order.
pub open spec fn constraints_of(cs: Seq<Child>) -> Seq<Constraint> {
    cs.map_values(
        |c: Child|
            match size_result(c.size) {
                Ok(k) => k,
                Err(_) => Constraint::Fill(0),
            },
    )
}

/// The placements of a split carried out as `o` in `area`: `o` was handed
/// the split's direction, its children's constraints and `area`, and gave
/// one rectangle per child, within `area` and keeping its rows or columns;
/// then each widget child is placed at its rectangle and each nested split
/// is placed within its rectangle, in order. `None` where `o` does not fit.
pub open spec fn laid(s: Split, area: Rect, o: SplitOutcome) -> Option<Seq<(WidgetKind, Rect)>>
    decreases s, 2int,
{
    proof {
        assert(decreases_to!(s => s.children));
        assert(decreases_to!(s.children => s.children@));
    }
    if o.direction == s.direction && o.constraints == constraints_of(s.children@) && o.area == area
        && o.rects.len() == s.children@.len() && o.nested.len() == s.children@.len() && (forall|
        i: int,
    |
        0 <= i < o.rects.len() ==> within(#[trigger] o.rects[i], area) && kept(
            s.direction,
            o.rects[i],
            area,
        )) {
        laid_children(s.children@, o.rects, o.nested)
    } else {
        None
    }
}

pub open spec fn laid_children(cs: Seq<Child>, rects: Seq<Rect>, os: Seq<Option<SplitOutcome>>) -> Option<
    Seq<(WidgetKind, Rect)>,
>
    decreases cs, 1int,
{
    if cs.len() == 0 {
        Some(Seq::empty())
    } else {
        proof {
            assert(decreases_to!(cs => cs[cs.len() - 1]));
            assert(decreases_to!(cs => cs.subrange(0, cs.len() - 1)));
        }
        match laid_children(
            cs.subrange(0, cs.len() - 1),
            rects.subrange(0, rects.len() - 1),
            os.subrange(0, os.len() - 1),
        ) {
            None => None,
            Some(p) => match laid_child(cs[cs.len() - 1], rects[rects.len() - 1], os[os.len() - 1]) {
                None => None,
                Some(q) => Some(p + q),
            },
        }
    }
}

pub open spec fn laid_child(c: Child, r: Rect, o: Option<SplitOutcome>) -> Option<Seq<(WidgetKind, Rect)>>
    decreases c, 0int,
{
    match c.widget {
        Some(w) => Some(seq![(w, r)]),
        None => match c.split {
            Some(n) => match o {
                Some(t) => laid(n, r, t),
                None => None,
            },
            None => Some(Seq::empty()),
        },
    }
}

/// The widget kinds of a list of placements.
pub open spec fn placed_kinds(p: Seq<(WidgetKind, Rect)>) -> Seq<WidgetKind> {
    p.map_values(|e: (WidgetKind, Rect)| e.0)
}

/// What a child of a split does with the rectangle the layout solver gave
/// its slot: place its widget there, lay out its nested split in it, or
/// leave it empty.
#[derive(Debug, Clone, Copy, PartialEq, Eq, Structural)]
pub enum Slot {
    Widget(WidgetKind, Rect),
    Split(Rect),
    Empty,
}

pub open spec fn slot_of(c: Child, r: Rect) -> Slot {
    match c.widget {
        Some(w) => Slot::Widget(w, r),
        None => match c.split {
            Some(_) => Slot::Split(r),
            None => Slot::Empty,
        },
    }
}

/// Give each child the rectangle at its own position among those the layout
/// solver returned for the split.
pub fn child_slots(children: &Vec<Child>, rects: &Vec<Rect>) -> (slots: Vec<Slot>)
    requires
        rects@.len() == children@.len(),
    ensures
        slots@.len() == children@.len(),
        forall|i: int| 0 <= i < children@.len() ==> #[trigger] slots@[i] == slot_of(children@[i], rects@[i]),
{
    let mut slots: Vec<Slot> = Vec::new();
    let mut i: usize = 0;
    while i < children.len()
        invariant
            i <= children@.len(),
            rects@.len() == children@.len(),
            slots@.len() == i,
            forall|j: int| 0 <= j < i ==> #[trigger] slots@[j] == slot_of(children@[j], rects@[j]),
        decreases children@.len() - i,
    {
        let r = rects[i];
        let slot = match children[i].widget {
            Some(w) => Slot::Widget(w, r),
            None => match &children[i].split {
                Some(_) => Slot::Split(r),
                None => Slot::Empty,
            },
        };
        slots.push(slot);
        i = i + 1;
    }
    slots
}

/// The constraints of the children's sizes, in order; the first size that
/// cannot be turned into one is the error.
pub fn child_constraints(children: &Vec<Child>) -> (r: Result<Vec<Constraint>, SizeError>)
    ensures
        match sizes_error(children@) {
            Some(e) => r matches Err(x) && x@ == e,
            None => r matches Ok(v) && v@ == constraints_of(children@),
        },
{
    let n = children.len();
    let mut constraints: Vec<Constraint> = Vec::new();
    let mut i: usize = 0;
    proof {
        assert(children@.subrange(0, n as int) =~= children@);
    }
    while i < n
        invariant
            n == children@.len(),
            i <= n,
            constraints@.len() == i,
            forall|j: int|
                0 <= j < i ==> size_result(children@[j].size) == Ok::<
                    Constraint,
                    (bool, Seq<char>),
                >(#[trigger] constraints@[j]),
            sizes_error(children@) == sizes_error(children@.subrange(i as int, n as int)),
        decreases n - i,
    {
        let ghost rest = children@.subrange(i as int, n as int);
        proof {
            assert(rest[0] == children@[i as int]);
            assert(rest.subrange(1, rest.len() as int) =~= children@.subrange(i + 1, n as int));
        }
        let c = match children[i].size.to_constraint() {
            Ok(c) => c,
            Err(e) => {
                return Err(e);
            },
        };
        constraints.push(c);
        i = i + 1;
    }
    proof {
        assert(sizes_error(children@.subrange(n as int, n as int)) is None);
        assert forall|j: int| 0 <= j < n implies constraints_of(children@)[j] == #[trigger] constraints@[j] by {
            assert(size_result(children@[j].size) == Ok::<Constraint, (bool, Seq<char>)>(constraints@[j]));
        }
        assert(constraints@ =~= constraints_of(children@));
    }
    Ok(constraints)
}

/// Resolve the configured split tree into concrete widget placements for `area`.
///
/// Succeeds exactly when every size of the tree is valid, and then places the
/// widget leaves in tree order, each within `area`: every split hands the
/// layout solver its direction, its children's constraints and its area, and
/// each child goes to the rectangle the solver gave it (see `laid`).
pub fn resolve(split: &Split, area: Rect) -> (r: Result<Vec<(WidgetKind, Rect)>, SizeError>)
    ensures
        match tree_size_error(*split) {
            Some(e) => r matches Err(x) && x@ == e,
            None => r matches Ok(p) && placed_kinds(p@) == widget_kinds(*split) && (forall|i: int|
                0 <= i < p@.len() ==> within(#[trigger] p@[i].1, area)) && exists|o: SplitOutcome|
                laid(*split, area, o) == Some(p@),
        },
{
    let mut out: Vec<(WidgetKind, Rect)> = Vec::new();
    let outcome = resolve_split(split, area, &mut out)?;
    proof {
        assert(out@.subrange(0, out@.len() as int) =~= out@);
        assert(laid(*split, area, outcome@) == Some(out@));
        assert(placed_kinds(Seq::<(WidgetKind, Rect)>::empty()) =~= Seq::<WidgetKind>::empty());
        assert(Seq::<WidgetKind>::empty() + widget_kinds(*split) =~= widget_kinds(*split));
    }
    Ok(out)
}

fn resolve_split(split: &Split, area: Rect, out: &mut Vec<(WidgetKind, Rect)>) -> (r: Result<
    Ghost<SplitOutcome>,
    SizeError,
>)
    ensures
        match tree_size_error(*split) {
            Some(e) => r matches Err(x) && x@ == e,
            None => r is Ok && placed_kinds(final(out)@) == placed_kinds(old(out)@) + widget_kinds(
                *split,
            ),
        },
        r is Ok ==> final(out)@.len() >= old(out)@.len() && final(out)@.subrange(
            0,
            old(out)@.len() as int,
        ) == old(out)@ && forall|j: int|
            old(out)@.len() <= j < final(out)@.len() ==> within(#[trigger] final(out)@[j].1, area),
        r matches Ok(o) ==> laid(*split, area, o@) == Some(
            final(out)@.subrange(old(out)@.len() as int, final(out)@.len() as int),
        ),
    decreases split,
{
    let n = split.children.len();
    let constraints = match child_constraints(&split.children) {
        Ok(cs) => cs,
        Err(e) => {
            proof {
                assert(tree_size_error(*split) == Some(e@));
            }
            return Err(e);
        },
    };
    proof {
        assert(split.children@.subrange(0, n as int) =~= split.children@);
    }
    let rects = split_area(split.direction, &constraints, area);
    let slots = child_slots(&split.children, &rects);
    let ghost out0 = out@;
    let ghost mut outs: Seq<Option<SplitOutcome>> = Seq::empty();
    let mut i: usize = 0;
    proof {
        assert(out@.subrange(out0.len() as int, out@.len() as int) =~= Seq::<(WidgetKind, Rect)>::empty());
        assert(split.children@.subrange(0, 0) =~= Seq::<Child>::empty());
    }
    while i < n
        invariant
            n == split.children@.len(),
            rects@.len() == n,
            i <= n,
            sizes_error(split.children@) is None,
            tree_size_error(*split) == nested_size_error(split.children@),
            nested_size_error(split.children@) == nested_size_error(
                split.children@.subrange(i as int, n as int),
            ),
            widget_kinds(*split) == children_kinds(split.children@),
            placed_kinds(out@) + children_kinds(split.children@.subrange(i as int, n as int))
                == placed_kinds(out0) + children_kinds(split.children@),
            forall|j: int| 0 <= j < n ==> within(#[trigger] rects@[j], area),
            out@.len() >= out0.len(),
            out@.subrange(0, out0.len() as int) == out0,
            forall|j: int| out0.len() <= j < out@.len() ==> within(#[trigger] out@[j].1, area),
            forall|j: int| 0 <= j < n ==> kept(split.direction, #[trigger] rects@[j], area),
            outs.len() == i,
            slots@.len() == n,
            forall|j: int| 0 <= j < n ==> #[trigger] slots@[j] == slot_of(split.children@[j], rects@[j]),
            laid_children(
                split.children@.subrange(0, i as int),
                rects@.subrange(0, i as int),
                outs,
            ) == Some(out@.subrange(out0.len() as int, out@.len() as int)),
        decreases n - i,
    {
        let ghost rest = split.children@.subrange(i as int, n as int);
        let ghost before = out@;
        let ghost cs1 = split.children@.subrange(0, i + 1);
        let ghost rs1 = rects@.subrange(0, i + 1);
        proof {
            assert(cs1.subrange(0, cs1.len() - 1) =~= split.children@.subrange(0, i as int));
            assert(rs1.subrange(0, rs1.len() - 1) =~= rects@.subrange(0, i as int));
            assert(cs1[cs1.len() - 1] == split.children@[i as int]);
            assert(rs1[rs1.len() - 1] == rects@[i as int]);
        }
        proof {
            assert(rest[0] == split.children@[i as int]);
            assert(rest.subrange(1, rest.len() as int) =~= split.children@.subrange(
                i + 1,
                n as int,
            ));
        }
        let slot = slots[i];
        proof {
            assert(slot == slot_of(split.children@[i as int], rects@[i as int]));
        }
        if let Slot::Widget(widget, r) = slot {
            out.push((widget, r));
            proof {
                assert(out@.subrange(0, out0.len() as int) =~= before.subrange(0, out0.len() as int));
                assert forall|j: int| out0.len() <= j < out@.len() implies within(#[trigger] out@[j].1, area) by {
                    if j < before.len() {
                        assert(out@[j] == before[j]);
                    }
                }
                let os1 = outs.push(None);
                assert(os1.subrange(0, os1.len() - 1) =~= outs);
                assert(out@.subrange(out0.len() as int, out@.len() as int) =~= before.subrange(
                    out0.len() as int,
                    before.len() as int,
                ) + seq![(widget, rects@[i as int])]);
                assert(split.children@[i as int].widget == Some(widget));
                assert(laid_child(cs1[cs1.len() - 1], rs1[rs1.len() - 1], os1[os1.len() - 1]) == Some(
                    seq![(widget, rects@[i as int])],
                ));
                assert(laid_children(cs1, rs1, os1) == Some(
                    out@.subrange(out0.len() as int, out@.len() as int),
                ));
                outs = os1;
                assert(placed_kinds(out@) =~= placed_kinds(before).push(widget));
                assert(placed_kinds(out@) + children_kinds(split.children@.subrange(i + 1, n as int))
                    =~= placed_kinds(before) + children_kinds(rest));
            }
        } else if let (Slot::Split(r), Some(nested)) = (slot, &split.children[i].split) {
            proof {
                assert(decreases_to!(*split => split.children));
                assert(decreases_to!(split.children => split.children@));
                assert(decreases_to!(split.children@ => split.children@[i as int]));
                assert(decreases_to!(split.children@[i as int] => split.children@[i as int].split));
            }
            let ghost inner = rects@[i as int];
            let g = resolve_split(nested, r, out)?;
            proof {
                let os1 = outs.push(Some(g@));
                assert(os1.subrange(0, os1.len() - 1) =~= outs);
                assert(split.children@[i as int].widget is None);
                assert(split.children@[i as int].split == Some(*nested));
                assert(out@.subrange(0, before.len() as int) == before);
                assert forall|j: int| out0.len() <= j < before.len() implies out@[j] == before[j] by {
                    assert(out@.subrange(0, before.len() as int)[j] == before[j]);
                }
                assert(laid_child(cs1[cs1.len() - 1], rs1[rs1.len() - 1], os1[os1.len() - 1]) == Some(
                    out@.subrange(before.len() as int, out@.len() as int),
                ));
                assert(out@.subrange(out0.len() as int, out@.len() as int) =~= before.subrange(
                    out0.len() as int,
                    before.len() as int,
                ) + out@.subrange(before.len() as int, out@.len() as int));
                assert(laid_children(cs1, rs1, os1) == Some(
                    out@.subrange(out0.len() as int, out@.len() as int),
                ));
                outs = os1;
            }
            proof {
                assert(out@.subrange(0, before.len() as int) == before);
                assert forall|j: int| 0 <= j < out0.len() implies out@[j] == out0[j] by {
                    assert(out@.subrange(0, before.len() as int)[j] == before[j]);
                    assert(before.subrange(0, out0.len() as int)[j] == out0[j]);
                }
                assert(out@.subrange(0, out0.len() as int) =~= out0);
                assert forall|j: int| out0.len() <= j < out@.len() implies within(#[trigger] out@[j].1, area) by {
                    if j < before.len() {
                        assert(out@.subrange(0, before.len() as int)[j] == before[j]);
                    } else {
                        assert(within(out@[j].1, inner));
                    }
                }
            }
            proof {
                assert(placed_kinds(out@) + children_kinds(split.children@.subrange(i + 1, n as int))
                    =~= placed_kinds(before) + children_kinds(rest));
            }
        } else {
            proof {
                let os1 = outs.push(None);
                assert(os1.subrange(0, os1.len() - 1) =~= outs);
                assert(before.subrange(out0.len() as int, before.len() as int) + Seq::<
                    (WidgetKind, Rect),
                >::empty() =~= before.subrange(out0.len() as int, before.len() as int));
                assert(split.children@[i as int].widget is None);
                assert(split.children@[i as int].split is None);
                assert(laid_child(cs1[cs1.len() - 1], rs1[rs1.len() - 1], os1[os1.len() - 1]) == Some(
                    Seq::<(WidgetKind, Rect)>::empty(),
                ));
                assert(out@ == before);
                assert(laid_children(cs1, rs1, os1) == Some(
                    out@.subrange(out0.len() as int, out@.len() as int),
                ));
                outs = os1;
                assert(children_kinds(rest) =~= children_kinds(split.children@.subrange(i + 1, n as int)));
            }
        }
        i = i + 1;
    }
    proof {
        assert(out@.subrange(0, out0.len() as int) == out0);
        assert(children_kinds(split.children@.subrange(n as int, n as int)) =~= Seq::<WidgetKind>::empty());
        assert(placed_kinds(out@) =~= placed_kinds(out@) + Seq::<WidgetKind>::empty());
        assert(split.children@.subrange(0, n as int) =~= split.children@);
        assert(rects@.subrange(0, n as int) =~= rects@);
    }
    let ghost o = SplitOutcome {
        direction: split.direction,
        constraints: constraints@,
        area,
        rects: rects@,
        nested: outs,
    };
    proof {
        assert(laid(*split, area, o) == Some(out@.subrange(out0.len() as int, out@.len() as int)));
    }
    Ok(Ghost(o))
}

} // verus!
