use vstd::prelude::*;
use crate::color::Color;
use crate::grid::Grid;

verus! {

/// The log of events, oldest first, each with the color it is shown in.
pub struct Messages {
    pub messages: Vec<(String, Color)>,
}

impl View for Messages {
    type V = Seq<(Seq<char>, Color)>;

    open spec fn view(&self) -> Seq<(Seq<char>, Color)> {
        self.messages@.map_values(|m: (String, Color)| (m.0@, m.1))
    }
}

impl Messages {
    pub fn new() -> (m: Messages)
        ensures
            m@ == Seq::<(Seq<char>, Color)>::empty(),
    {
        let m = Messages { messages: Vec::new() };
        assert(m@ =~= Seq::<(Seq<char>, Color)>::empty());
        m
    }

    pub fn add(&mut self, message: String, color: Color)
        ensures
            final(self)@ == old(self)@.push((message@, color)),
    {
        let ghost before = self@;
        let ghost text = message@;
        self.messages.push((message, color));
        assert(self@ =~= before.push((text, color)));
    }

    /// The messages, oldest first.
    pub fn iter(&self) -> (s: &[(String, Color)])
        ensures
            s@ == self.messages@,
    {
        self.messages.as_slice()
    }
}

/// The state one session shares between its turns: the dungeon and the log.
pub struct Game {
    pub map: Grid,
    pub messages: Messages,
}

} // verus!
