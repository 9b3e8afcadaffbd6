//! A calendar that is kept in step with its inputs: the reference date, the
//! active date and the configuration.

use vstd::prelude::*;
use crate::config::CalendarConfig;
use crate::date::CalendarDate;
use crate::grid::has_next_month;
use crate::view::{lemma_restyled_view_shows, render_calendar, CalendarView};

verus! {

/// A month calendar together with the inputs it was made from. Each change
/// of an input leaves the view the one that belongs to the inputs, so a
/// highlight is never shown on a grid it was not worked out for.
#[derive(Clone, Debug)]
pub struct Calendar<R> {
    /// Any day of the month that is shown.
    pub reference: CalendarDate,
    /// The day to highlight, if any.
    pub active: Option<CalendarDate>,
    pub config: CalendarConfig<R>,
    pub view: CalendarView,
}

impl<R: Fn(CalendarDate) -> String> Calendar<R> {
    /// The inputs are ones a calendar can be made from, and the view is the
    /// one that belongs to them.
    pub open spec fn well_formed(&self) -> bool {
        &&& self.reference.well_formed()
        &&& has_next_month(self.reference)
        &&& self.config.renders_every_date()
        &&& self.view.shows(self.reference, self.active, &self.config)
    }

    /// The calendar of the month of `reference`.
    pub fn new(
        reference: CalendarDate,
        active: Option<CalendarDate>,
        config: CalendarConfig<R>,
    ) -> (calendar: Self)
        requires
            reference.well_formed(),
            has_next_month(reference),
            config.renders_every_date(),
        ensures
            calendar.well_formed(),
            calendar.reference == reference,
            calendar.active == active,
            calendar.config == config,
    {
        let view = render_calendar(reference, active, &config);
        Calendar { reference, active, config, view }
    }

    /// Shows the month of another reference date. The grid is built anew
    /// and every cell is made again, with the active date as it stands.
    pub fn set_reference(&mut self, reference: CalendarDate)
        requires
            old(self).well_formed(),
            reference.well_formed(),
            has_next_month(reference),
        ensures
            final(self).well_formed(),
            final(self).reference == reference,
            final(self).active == old(self).active,
            final(self).config == old(self).config,
    {
        self.view = render_calendar(reference, self.active, &self.config);
        self.reference = reference;
    }

    /// Highlights another day, or none. The rows and cells stay what they
    /// are; each cell only has its flag and classes worked out again.
    pub fn set_active(&mut self, active: Option<CalendarDate>)
        requires
            old(self).well_formed(),
        ensures
            final(self).well_formed(),
            final(self).view.is_restyling_of(&old(self).view, active, &old(self).config),
            final(self).reference == old(self).reference,
            final(self).active == active,
            final(self).config == old(self).config,
    {
        let view = self.view.restyled(active, &self.config);
        proof {
            lemma_restyled_view_shows(
                self.view,
                view,
                self.reference,
                self.active,
                active,
                &self.config,
            );
        }
        self.view = view;
        self.active = active;
    }

    /// Takes another configuration. Every cell is made again, since both
    /// its text and its classes come from the configuration.
    pub fn set_config(&mut self, config: CalendarConfig<R>)
        requires
            old(self).well_formed(),
            config.renders_every_date(),
        ensures
            final(self).well_formed(),
            final(self).reference == old(self).reference,
            final(self).active == old(self).active,
            final(self).config == config,
    {
        self.view = render_calendar(self.reference, self.active, &config);
        self.config = config;
    }
}

} // verus!
