//! Configuration of the calendar: style classes and the text of a cell.

use vstd::prelude::*;
use crate::date::CalendarDate;
use crate::text::day_text;

verus! {

/// Style classes for the parts of the calendar, and an optional function
/// that gives the text of a day's cell. A class that is absent counts as the
/// empty text; without a function a cell shows the day of the month as two
/// digits.
#[derive(Clone, Debug)]
pub struct CalendarConfig<R> {
    /// Classes of the row of weekday labels.
    pub header_classes: Option<String>,
    /// Classes of every day cell and of every weekday label.
    pub cell_classes: Option<String>,
    /// Classes of the title that names the month.
    pub month_classes: Option<String>,
    /// Classes added to the cell of the active date.
    pub active_classes: Option<String>,
    /// Gives the text of the cell of a date.
    pub cell_renderer: Option<R>,
}

/// The text of a class setting, empty when it is absent.
pub open spec fn text_or_empty(classes: Option<String>) -> Seq<char> {
    match classes {
        Some(text) => text@,
        None => Seq::empty(),
    }
}

/// The text of a class setting, empty when it is absent.
pub fn classes_or_empty(classes: &Option<String>) -> (text: String)
    ensures
        text@ == text_or_empty(*classes),
{
    match classes {
        Some(text) => text.clone(),
        None => String::new(),
    }
}

impl<R: Fn(CalendarDate) -> String> CalendarConfig<R> {
    /// The cell function, if there is one, may be called on every date.
    pub open spec fn renders_every_date(&self) -> bool {
        match self.cell_renderer {
            Some(render) => forall|date: CalendarDate|
                date.well_formed() ==> call_requires(render, (date,)),
            None => true,
        }
    }

    /// `text` is a text that the cell of `date` may show: one that the cell
    /// function can return for the date, or the day of the month as two
    /// digits where there is no cell function.
    pub open spec fn may_show(&self, date: CalendarDate, text: String) -> bool {
        match self.cell_renderer {
            Some(render) => call_ensures(render, (date,), text),
            None => text@ == day_text(date),
        }
    }

    /// The text of the cell of `date`.
    pub fn cell_text(&self, date: CalendarDate) -> (text: String)
        requires
            date.well_formed(),
            self.renders_every_date(),
        ensures
            self.may_show(date, text),
    {
        match &self.cell_renderer {
            Some(render) => render(date),
            None => date.day_label(),
        }
    }
}

impl<R> Default for CalendarConfig<R> {
    /// No classes and no cell function.
    fn default() -> (config: Self)
        ensures
            config.header_classes is None,
            config.cell_classes is None,
            config.month_classes is None,
            config.active_classes is None,
            config.cell_renderer is None,
    {
        CalendarConfig {
            header_classes: None,
            cell_classes: None,
            month_classes: None,
            active_classes: None,
            cell_renderer: None,
        }
    }
}

} // verus!
