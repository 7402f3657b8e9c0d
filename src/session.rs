use vstd::prelude::*;

verus! {

/// The extraction state of an editing session: the page on display and the page of the one
/// extraction that may be outstanding. Each request carries its page, and a result for a page
/// that is no longer on display is discarded.
#[derive(Clone, Copy, Debug, PartialEq, Eq, Structural)]
pub struct ExtractionSession {
    pub current_page: usize,
    pub in_flight: Option<usize>,
}

impl ExtractionSession {
    /// A session showing `page`, with no extraction outstanding.
    pub fn new(page: usize) -> (r: Self)
        ensures
            r.current_page == page,
            r.in_flight is None,
    {
        ExtractionSession { current_page: page, in_flight: None }
    }

    /// Asks to extract the page on display. Refused (`None`) while another extraction is
    /// outstanding; otherwise gives the page the request is for, now outstanding.
    pub fn request(&mut self) -> (r: Option<usize>)
        ensures
            old(self).in_flight is None ==> r == Some(old(self).current_page) && *final(self) == (
            ExtractionSession { in_flight: Some(old(self).current_page), ..*old(self) }),
            old(self).in_flight is Some ==> r is None && *final(self) == *old(self),
    {
        if self.in_flight.is_some() {
            return None;
        }
        self.in_flight = Some(self.current_page);
        Some(self.current_page)
    }

    /// Shows another page. An outstanding extraction is not cancelled.
    pub fn show_page(&mut self, page: usize)
        ensures
            *final(self) == (ExtractionSession { current_page: page, ..*old(self) }),
    {
        self.current_page = page;
    }

    /// The result of the extraction requested for `page` arrives. The extraction is no longer
    /// outstanding; the result is to be used only if it answers the outstanding request and
    /// its page is still on display.
    pub fn receive(&mut self, page: usize) -> (use_it: bool)
        ensures
            use_it == (old(self).in_flight == Some(page) && page == old(self).current_page),
            old(self).in_flight == Some(page) ==> final(self).in_flight is None,
            old(self).in_flight != Some(page) ==> final(self).in_flight == old(self).in_flight,
            final(self).current_page == old(self).current_page,
    {
        match self.in_flight {
            Some(p) => {
                if p == page {
                    self.in_flight = None;
                    page == self.current_page
                } else {
                    false
                }
            },
            None => false,
        }
    }
}

} // verus!
