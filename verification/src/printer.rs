//! The section map: one line per section, indented by nesting depth, with
//! markers where a nested module or component starts and ends.

use vstd::prelude::*;

verus! {

/// What a container of sections is.
#[derive(Clone, Copy, Debug, PartialEq, Eq, Structural)]
pub enum Encoding {
    /// A core module.
    Module,
    /// A component, which may hold modules and components.
    Component,
}

/// One line of the section map.
#[derive(Debug, PartialEq, Eq)]
pub enum Line {
    /// A section: its name, its byte range `[start, end)` and its number
    /// of items.
    Section { indent: usize, name: String, start: usize, end: usize, count: u32 },
    /// A nested module or component starts; `index` numbers it among its
    /// siblings.
    Start { indent: usize, encoding: Encoding, index: u32 },
    /// A nested module or component ends.
    End { indent: usize, encoding: Encoding, index: u32 },
}

/// A line, with its text as a sequence of characters.
pub enum LineView {
    Section { indent: usize, name: Seq<char>, start: usize, end: usize, count: u32 },
    Start { indent: usize, encoding: Encoding, index: u32 },
    End { indent: usize, encoding: Encoding, index: u32 },
}

impl View for Line {
    type V = LineView;

    open spec fn view(&self) -> LineView {
        match *self {
            Line::Section { indent, name, start, end, count } => LineView::Section {
                indent,
                name: name@,
                start,
                end,
                count,
            },
            Line::Start { indent, encoding, index } => LineView::Start { indent, encoding, index },
            Line::End { indent, encoding, index } => LineView::End { indent, encoding, index },
        }
    }
}

/// The lines of a list, each by its view.
pub open spec fn lines_view(lines: Seq<Line>) -> Seq<LineView> {
    Seq::new(lines.len(), |i: int| lines[i]@)
}

/// One index space: the scope in which nested modules and components are
/// numbered.
pub struct IndexSpace {
    /// How many nested modules of this scope have ended.
    pub modules: u32,
    /// How many nested components of this scope have ended.
    pub components: u32,
    /// The containers of this scope that have started and not ended yet,
    /// innermost last.
    pub processing: Vec<Encoding>,
}

/// An index space, with its stack as a sequence.
pub struct Space {
    pub modules: u32,
    pub components: u32,
    pub processing: Seq<Encoding>,
}

impl View for IndexSpace {
    type V = Space;

    open spec fn view(&self) -> Space {
        Space { modules: self.modules, components: self.components, processing: self.processing@ }
    }
}

/// The index spaces of a list, each by its view.
pub open spec fn spaces_view(indices: Seq<IndexSpace>) -> Seq<Space> {
    Seq::new(indices.len(), |i: int| indices[i]@)
}

/// The writer of the section map: a stack of index spaces, outermost first,
/// and the lines written so far.
pub struct Printer {
    pub indices: Vec<IndexSpace>,
    pub output: Vec<Line>,
}

/// A printer's index spaces and lines.
pub struct Sheet {
    pub indices: Seq<Space>,
    pub output: Seq<LineView>,
}

impl View for Printer {
    type V = Sheet;

    open spec fn view(&self) -> Sheet {
        Sheet { indices: spaces_view(self.indices@), output: lines_view(self.output@) }
    }
}

/// One more than `n`, or `n` where it is the largest value of its type.
pub open spec fn next_u32(n: u32) -> u32 {
    if n < u32::MAX {
        (n + 1) as u32
    } else {
        n
    }
}

/// The space before any container has started or ended in it.
pub open spec fn empty_space() -> Space {
    Space { modules: 0, components: 0, processing: Seq::empty() }
}

/// The indentation depth under the given index spaces: their number, and
/// one more while the innermost space is inside a module. Without any
/// space it is 0.
pub open spec fn depth(indices: Seq<Space>) -> usize {
    if indices.len() == 0 {
        0
    } else {
        let space = indices.last();
        let inside_module = space.processing.len() > 0 && space.processing.last()
            == Encoding::Module;
        if inside_module && indices.len() < usize::MAX {
            (indices.len() + 1) as usize
        } else {
            indices.len() as usize
        }
    }
}

/// The sheet after a section line was written.
pub open spec fn with_section(sheet: Sheet, start: usize, end: usize, count: u32, name: Seq<char>) -> Sheet {
    Sheet {
        output: sheet.output.push(
            LineView::Section { indent: depth(sheet.indices), name, start, end, count },
        ),
        ..sheet
    }
}

/// The sheet after a new index space was opened, for a nested component.
pub open spec fn with_space(sheet: Sheet) -> Sheet {
    Sheet { indices: sheet.indices.push(empty_space()), ..sheet }
}

/// The sheet after a nested container started: the container is pushed on
/// the innermost space, and a marker is written with that space's count of
/// ended containers of the same kind. Without any space nothing happens.
pub open spec fn with_start(sheet: Sheet, encoding: Encoding) -> Sheet {
    if sheet.indices.len() == 0 {
        sheet
    } else {
        let space = sheet.indices.last();
        let pushed = Space { processing: space.processing.push(encoding), ..space };
        let indices = sheet.indices.drop_last().push(pushed);
        let index = match encoding {
            Encoding::Module => space.modules,
            Encoding::Component => space.components,
        };
        Sheet {
            indices,
            output: sheet.output.push(LineView::Start { indent: depth(indices), encoding, index }),
        }
    }
}

/// The sheet after a container ended. The marker is indented as the
/// container's contents were.
///
/// - A module: the marker carries the innermost space's module count, which
///   then goes up by one.
/// - A component: the marker carries the innermost space's component count;
///   that space is closed, and the component count of the space around it
///   goes up by one.
/// - Nothing open in the innermost space: the space is closed without a
///   marker. This is the end of the outermost container.
///
/// Without any space nothing happens.
pub open spec fn with_end(sheet: Sheet) -> Sheet {
    if sheet.indices.len() == 0 {
        sheet
    } else {
        let indent = depth(sheet.indices);
        let space = sheet.indices.last();
        let outer = sheet.indices.drop_last();
        if space.processing.len() == 0 {
            Sheet { indices: outer, ..sheet }
        } else {
            match space.processing.last() {
                Encoding::Module => Sheet {
                    indices: outer.push(
                        Space {
                            modules: next_u32(space.modules),
                            processing: space.processing.drop_last(),
                            ..space
                        },
                    ),
                    output: sheet.output.push(
                        LineView::End { indent, encoding: Encoding::Module, index: space.modules },
                    ),
                },
                Encoding::Component => Sheet {
                    indices: if outer.len() == 0 {
                        outer
                    } else {
                        outer.drop_last().push(
                            Space { components: next_u32(outer.last().components), ..outer.last() },
                        )
                    },
                    output: sheet.output.push(
                        LineView::End {
                            indent,
                            encoding: Encoding::Component,
                            index: space.components,
                        },
                    ),
                },
            }
        }
    }
}

/// How many containers have started and not ended yet, over all spaces.
pub open spec fn open_containers(indices: Seq<Space>) -> nat
    decreases indices.len(),
{
    if indices.len() == 0 {
        0
    } else {
        open_containers(indices.drop_last()) + indices.last().processing.len()
    }
}

/// Whether the spaces are stacked as nested containers stack them: there
/// is an outermost space; every space inside it was opened for a
/// component, which is the first container in it; every other container is
/// a module.
pub open spec fn well_nested(indices: Seq<Space>) -> bool {
    &&& indices.len() >= 1
    &&& forall|k: int| 1 <= k < indices.len() ==> (#[trigger] indices[k]).processing.len() >= 1
    &&& forall|k: int, j: int|
        0 <= k < indices.len() && 0 <= j < indices[k].processing.len() ==> (
        #[trigger] indices[k].processing[j] == Encoding::Component <==> k >= 1 && j == 0)
}

/// The start of a nested module keeps the spaces well nested and opens one
/// container.
pub proof fn lemma_module_started(sheet: Sheet)
    requires
        well_nested(sheet.indices),
    ensures
        well_nested(with_start(sheet, Encoding::Module).indices),
        open_containers(with_start(sheet, Encoding::Module).indices) == open_containers(
            sheet.indices,
        ) + 1,
{
    let indices = sheet.indices;
    let after = with_start(sheet, Encoding::Module).indices;
    let top = indices.len() - 1;
    assert(after.drop_last() =~= indices.drop_last());
    assert forall|k: int, j: int|
        0 <= k < after.len() && 0 <= j < after[k].processing.len() implies (
    #[trigger] after[k].processing[j] == Encoding::Component <==> k >= 1 && j == 0) by {
        if k < top || j < indices[top].processing.len() {
            assert(after[k].processing[j] == indices[k].processing[j]);
        } else if k >= 1 {
            assert(indices[k].processing.len() >= 1);
        }
    }
    assert forall|k: int| 1 <= k < after.len() implies (#[trigger] after[k]).processing.len()
        >= 1 by {
        assert(indices[k].processing.len() >= 1);
    }
}

/// The start of a nested component, in a space of its own, keeps the
/// spaces well nested and opens one container.
pub proof fn lemma_component_started(sheet: Sheet)
    requires
        well_nested(sheet.indices),
    ensures
        well_nested(with_start(with_space(sheet), Encoding::Component).indices),
        open_containers(with_start(with_space(sheet), Encoding::Component).indices)
            == open_containers(sheet.indices) + 1,
{
    let indices = sheet.indices;
    let opened = with_space(sheet).indices;
    let after = with_start(with_space(sheet), Encoding::Component).indices;
    assert(opened.drop_last() =~= indices);
    assert(after.drop_last() =~= indices);
    assert(after.last().processing =~= seq![Encoding::Component]);
    assert forall|k: int, j: int|
        0 <= k < after.len() && 0 <= j < after[k].processing.len() implies (
    #[trigger] after[k].processing[j] == Encoding::Component <==> k >= 1 && j == 0) by {
        if k < indices.len() {
            assert(after[k].processing[j] == indices[k].processing[j]);
        }
    }
    assert forall|k: int| 1 <= k < after.len() implies (#[trigger] after[k]).processing.len()
        >= 1 by {
        if k < indices.len() {
            assert(after[k] == indices[k]);
        }
    }
}

/// Where a container is open, its end keeps the spaces well nested, so
/// the outermost space stays, and closes one container.
pub proof fn lemma_container_ended(sheet: Sheet)
    requires
        well_nested(sheet.indices),
        open_containers(sheet.indices) >= 1,
    ensures
        well_nested(with_end(sheet).indices),
        open_containers(with_end(sheet).indices) == open_containers(sheet.indices) - 1,
{
    let indices = sheet.indices;
    let top = indices.len() - 1;
    let space = indices.last();
    let outer = indices.drop_last();
    let after = with_end(sheet).indices;
    if space.processing.len() == 0 {
        assert(indices.len() == 1) by {
            if indices.len() > 1 {
                assert(indices[top].processing.len() >= 1);
            }
        }
        assert(outer =~= Seq::<Space>::empty());
        assert(open_containers(indices) == 0);
    } else {
        let innermost = space.processing.len() - 1;
        assert(indices[top].processing[innermost] == space.processing.last());
        match space.processing.last() {
            Encoding::Module => {
                let rest = Space {
                    modules: next_u32(space.modules),
                    processing: space.processing.drop_last(),
                    ..space
                };
                assert(after == outer.push(rest));
                assert(after.drop_last() =~= outer);
                assert(after.last() == rest);
                if top >= 1 {
                    assert(indices[top].processing[0] == Encoding::Component);
                }
                assert forall|k: int, j: int|
                    0 <= k < after.len() && 0 <= j < after[k].processing.len() implies (
                #[trigger] after[k].processing[j] == Encoding::Component <==> k >= 1 && j
                    == 0) by {
                    assert(after[k].processing[j] == indices[k].processing[j]);
                }
                assert forall|k: int| 1 <= k < after.len() implies (
                #[trigger] after[k]).processing.len() >= 1 by {
                    if k < top {
                        assert(after[k] == indices[k]);
                    }
                }
            },
            Encoding::Component => {
                assert(top >= 1 && innermost == 0);
                let parent = outer.last();
                let counted = Space { components: next_u32(parent.components), ..parent };
                assert(after == outer.drop_last().push(counted));
                assert(after.drop_last() =~= outer.drop_last());
                assert(after.last() == counted);
                assert(open_containers(outer) == open_containers(outer.drop_last())
                    + parent.processing.len());
                assert forall|k: int, j: int|
                    0 <= k < after.len() && 0 <= j < after[k].processing.len() implies (
                #[trigger] after[k].processing[j] == Encoding::Component <==> k >= 1 && j
                    == 0) by {
                    assert(after[k].processing[j] == indices[k].processing[j]);
                }
                assert forall|k: int| 1 <= k < after.len() implies (
                #[trigger] after[k]).processing.len() >= 1 by {
                    assert(after[k].processing == indices[k].processing);
                }
            },
        }
    }
}

/// Where no container is open, an end closes the outermost space: it is
/// the end of the input.
pub proof fn lemma_outermost_ended(sheet: Sheet)
    requires
        well_nested(sheet.indices),
        open_containers(sheet.indices) == 0,
    ensures
        with_end(sheet).indices.len() == 0,
{
    let indices = sheet.indices;
    if indices.len() > 1 {
        assert(indices[indices.len() - 1].processing.len() >= 1);
    }
    assert(indices.drop_last() =~= Seq::<Space>::empty());
}

impl IndexSpace {
    /// A space in which nothing has started or ended.
    pub fn new() -> (space: IndexSpace)
        ensures
            space@ == empty_space(),
    {
        IndexSpace { modules: 0, components: 0, processing: Vec::new() }
    }
}

impl Printer {
    /// A printer with the outermost index space and no lines.
    pub fn new() -> (printer: Printer)
        ensures
            printer@ == (Sheet { indices: seq![empty_space()], output: Seq::empty() }),
    {
        let mut indices: Vec<IndexSpace> = Vec::new();
        indices.push(IndexSpace::new());
        let printer = Printer { indices, output: Vec::new() };
        assert(printer@.indices =~= seq![empty_space()]);
        assert(printer@.output =~= Seq::empty());
        printer
    }

    /// The current indentation depth, in steps of two spaces.
    pub fn depth(&self) -> (d: usize)
        ensures
            d == depth(self@.indices),
    {
        let n = self.indices.len();
        if n == 0 {
            return 0;
        }
        let space = &self.indices[n - 1];
        assert(spaces_view(self.indices@).last() == space@);
        let k = space.processing.len();
        if k > 0 && n < usize::MAX {
            match space.processing[k - 1] {
                Encoding::Module => n + 1,
                Encoding::Component => n,
            }
        } else {
            n
        }
    }

    /// The indentation that starts each line: two spaces per step of depth.
    pub fn header(&self) -> (s: String)
        ensures
            s@ == Seq::new((2 * depth(self@.indices)) as nat, |i: int| ' '),
    {
        let d = self.depth();
        let mut s = String::new();
        let mut i: usize = 0;
        while i < d
            invariant
                i <= d,
                s@ == Seq::new((2 * i) as nat, |i: int| ' '),
            decreases d - i,
        {
            proof {
                reveal_strlit("  ");
            }
            let ghost before = s@;
            s.append("  ");
            assert(s@ =~= Seq::new((2 * (i + 1)) as nat, |i: int| ' ')) by {
                assert("  "@.len() == 2);
                assert(s@ == before + "  "@);
            }
            i = i + 1;
        }
        s
    }

    /// Writes the line of a section with the byte range `[start, end)`.
    pub fn section_raw(&mut self, start: usize, end: usize, count: u32, name: &str)
        ensures
            final(self)@ == with_section(old(self)@, start, end, count, name@),
    {
        let indent = self.depth();
        let line = Line::Section { indent, name: String::from_str(name), start, end, count };
        let ghost before = self.output@;
        self.output.push(line);
        assert(lines_view(self.output@) =~= lines_view(before).push(line@));
    }

    /// Opens a new index space, in which a nested component numbers its own
    /// modules and components.
    pub fn open_space(&mut self)
        ensures
            final(self)@ == with_space(old(self)@),
    {
        let ghost before = self.indices@;
        let space = IndexSpace::new();
        self.indices.push(space);
        assert(spaces_view(self.indices@) =~= spaces_view(before).push(empty_space()));
    }

    /// Notes that a nested container starts, and writes its start marker.
    pub fn start(&mut self, encoding: Encoding)
        ensures
            final(self)@ == with_start(old(self)@, encoding),
    {
        let ghost spaces = self.indices@;
        let ghost lines = self.output@;
        match self.indices.pop() {
            Some(space) => {
                let ghost outer = self.indices@;
                let index = match encoding {
                    Encoding::Module => space.modules,
                    Encoding::Component => space.components,
                };
                let mut space = space;
                space.processing.push(encoding);
                self.indices.push(space);
                assert(spaces_view(self.indices@) =~= spaces_view(spaces).drop_last().push(
                    space@,
                ));
                let indent = self.depth();
                let line = Line::Start { indent, encoding, index };
                self.output.push(line);
                assert(lines_view(self.output@) =~= lines_view(lines).push(line@));
            },
            None => {
                assert(spaces_view(self.indices@) =~= spaces_view(spaces));
            },
        }
    }

    /// Notes that the innermost open container ends, and writes its end
    /// marker.
    pub fn end(&mut self)
        ensures
            final(self)@ == with_end(old(self)@),
    {
        let ghost spaces = self.indices@;
        let ghost lines = self.output@;
        let indent = self.depth();
        match self.indices.pop() {
            Some(space) => {
                let ghost outer = self.indices@;
                assert(spaces_view(outer) =~= spaces_view(spaces).drop_last());
                assert(spaces_view(spaces).last() == space@);
                let mut space = space;
                let ghost stack = space.processing@;
                match space.processing.pop() {
                    Some(Encoding::Module) => {
                        let index = space.modules;
                        if space.modules < u32::MAX {
                            space.modules = space.modules + 1;
                        }
                        assert(space.processing@ =~= stack.drop_last());
                        self.indices.push(space);
                        assert(spaces_view(self.indices@) =~= spaces_view(outer).push(space@));
                        let line = Line::End { indent, encoding: Encoding::Module, index };
                        self.output.push(line);
                        assert(lines_view(self.output@) =~= lines_view(lines).push(line@));
                    },
                    Some(Encoding::Component) => {
                        let index = space.components;
                        match self.indices.pop() {
                            Some(parent) => {
                                let ghost rest = self.indices@;
                                assert(spaces_view(rest) =~= spaces_view(outer).drop_last());
                                assert(spaces_view(outer).last() == parent@);
                                let mut parent = parent;
                                if parent.components < u32::MAX {
                                    parent.components = parent.components + 1;
                                }
                                self.indices.push(parent);
                                assert(spaces_view(self.indices@) =~= spaces_view(rest).push(
                                    parent@,
                                ));
                            },
                            None => {
                                assert(spaces_view(self.indices@) =~= spaces_view(outer));
                            },
                        }
                        let line = Line::End { indent, encoding: Encoding::Component, index };
                        self.output.push(line);
                        assert(lines_view(self.output@) =~= lines_view(lines).push(line@));
                    },
                    None => {},
                }
            },
            None => {
                assert(spaces_view(self.indices@) =~= spaces_view(spaces));
            },
        }
    }
}

} // verus!
