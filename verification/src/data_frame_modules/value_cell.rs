use std::any::Any;
use std::fmt::Debug;
use vstd::prelude::*;

verus! {

/// What every storable value can do without its type being known: show
/// itself as text.
pub trait DebugAny {
    fn format_value(&self) -> String;
}

/// Calls `format!` with `{:?}` on the value. The text is whatever the
/// value's `Debug` impl writes, so nothing is claimed of it.
#[verifier::external_body]
pub(crate) fn debug_text<T: Debug>(value: &T) -> (text: String)
{
    format!("{:?}", value)
}

impl<T: Debug + 'static> DebugAny for T {
    fn format_value(&self) -> String {
        debug_text(self)
    }
}

/// A value together with its type, as a cell holds it. Two contents are
/// equal when they are the same value of the same type.
pub struct Content {
    pub boxed: Box<dyn DebugAny>,
}

/// The content that holds `value`.
pub open spec fn erased<U: Debug + 'static>(value: U) -> Content {
    Content { boxed: Box::new(value) }
}

/// `content` holds a value of type `U`, and `value` is the one it holds.
pub open spec fn holds<U: Debug + 'static>(content: Content, value: U) -> bool {
    forall|w: U| #[trigger] erased(w) == content <==> w == value
}

/// `content` holds no value of type `U`.
pub open spec fn holds_no<U: Debug + 'static>(content: Content) -> bool {
    forall|w: U| #[trigger] erased(w) != content
}

/// `content` holds some value of type `U`.
pub open spec fn holds_type<U: Debug + 'static>(content: Content) -> bool {
    exists|w: U| #[trigger] erased(w) == content
}

/// A boxed value of a type chosen when the box is made, kept as
/// `Box<dyn Any>`, which the verifier cannot look into.
#[verifier::external_body]
pub struct AnyBox {
    value: Box<dyn Any>,
}

/// What a box holds.
pub uninterp spec fn cell_content(cell: AnyBox) -> Content;

/// `Box::new`, with the coercion to `Box<dyn Any>`. The claim is that the new
/// box holds that value, with its type.
#[verifier::external_body]
fn seal<U: Debug + 'static>(value: U) -> (cell: AnyBox)
    ensures
        cell_content(cell) == erased(value),
{
    AnyBox { value: Box::new(value) }
}

/// `<dyn Any>::downcast_ref`. std returns the reference if the boxed value is
/// of type `U`, and `None` if it is not. The claim says the same of what the
/// box holds: `Some` of the one value of type `U` in it, or `None` where it
/// holds no `U`.
#[verifier::external_body]
fn open_ref<U: Debug + 'static>(cell: &AnyBox) -> (r: Option<&U>)
    ensures
        match r {
            Some(v) => holds(cell_content(*cell), *v),
            None => holds_no::<U>(cell_content(*cell)),
        },
{
    cell.value.downcast_ref::<U>()
}

/// `<dyn Any>::downcast_mut`. As `downcast_ref`, with a mutable reference:
/// what is written through it is what the box holds afterwards, still as a
/// `U`. Where the boxed value is no `U`, the box stays as it was.
#[verifier::external_body]
fn open_mut<U: Debug + 'static>(cell: &mut AnyBox) -> (r: Option<&mut U>)
    ensures
        match r {
            Some(m) => holds(cell_content(*old(cell)), *m) && cell_content(*final(cell)) == erased(
                *final(m),
            ),
            None => holds_no::<U>(cell_content(*old(cell))) && *final(cell) == *old(cell),
        },
{
    cell.value.downcast_mut::<U>()
}

/// `std::any::TypeId`, which stands for one type.
#[verifier::external_type_specification]
#[verifier::external_body]
pub struct ExTypeId(std::any::TypeId);

/// `TypeId::of`. Nothing is claimed of the identifier.
#[verifier::external_body]
fn type_id_of<U: 'static>() -> (id: std::any::TypeId)
{
    std::any::TypeId::of::<U>()
}

/// A text that stands for the type `U`: the `Debug` form of its `TypeId`.
pub(crate) fn type_descriptor<U: 'static>() -> (descriptor: String) {
    let id = type_id_of::<U>();
    debug_text(&id)
}

/// The text of a box that holds a `U`, as the value's `Debug` impl writes
/// it; empty for a box that holds none.
fn render_as<U: Debug + 'static>(cell: &AnyBox) -> (text: String)
    ensures
        holds_no::<U>(cell_content(*cell)) ==> text@ == Seq::<char>::empty(),
{
    match open_ref::<U>(cell) {
        Some(value) => {
            assert(erased(*value) == cell_content(*cell));
            value.format_value()
        },
        None => String::new(),
    }
}

/// What shows a boxed value as text without its type being named at the
/// call.
pub trait Renderer {
    fn render(&self, cell: &AnyBox) -> String;
}

/// The renderer of boxes that hold a `U`.
pub struct RenderAs<U> {
    pub marker: Ghost<Option<U>>,
}

impl<U: Debug + 'static> Renderer for RenderAs<U> {
    fn render(&self, cell: &AnyBox) -> String {
        render_as::<U>(cell)
    }
}

/// One value of a type chosen when the cell is made, beside the renderer for
/// values of that type.
pub struct ValueCell {
    value: AnyBox,
    shown: Box<dyn Renderer>,
}

impl View for ValueCell {
    type V = Content;

    closed spec fn view(&self) -> Content {
        cell_content(self.value)
    }
}

impl ValueCell {
    /// A cell that holds `value`.
    pub fn new<U: Debug + 'static>(value: U) -> (cell: ValueCell)
        ensures
            cell@ == erased(value),
    {
        ValueCell { value: seal(value), shown: Box::new(RenderAs::<U> { marker: Ghost(None) }) }
    }

    /// The value, if the cell holds one of type `U`.
    pub fn downcast_ref<U: Debug + 'static>(&self) -> (r: Option<&U>)
        ensures
            match r {
                Some(v) => holds(self@, *v),
                None => holds_no::<U>(self@),
            },
    {
        open_ref(&self.value)
    }

    /// The value, to be changed in place, if the cell holds one of type `U`.
    pub fn downcast_mut<U: Debug + 'static>(&mut self) -> (r: Option<&mut U>)
        ensures
            match r {
                Some(m) => holds(old(self)@, *m) && final(self)@ == erased(*final(m)),
                None => holds_no::<U>(old(self)@) && final(self)@ == old(self)@,
            },
    {
        open_mut(&mut self.value)
    }

    /// The value as text.
    pub fn format_value(&self) -> (text: String) {
        self.shown.render(&self.value)
    }
}

} // verus!
