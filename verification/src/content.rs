//! What a program that works on one note at a time is showing.

use vstd::prelude::*;

verus! {

/// The state of the note at hand: nothing chosen; a note that has no
/// password yet (its name); a sealed note (its name and the three fields of
/// its record); an open note (its name, the document, and the place of the
/// selected passage); or a message, of failure or of success.
#[derive(Clone)]
pub enum Content<T: Clone, P: Clone> {
    Nothing,
    NewFile(T),
    Encrypted(T, T, T, T),
    PlainText(T, P, usize),
    Error(T),
    Success(T),
}

impl<T: Clone, P: Clone> Default for Content<T, P> {
    fn default() -> (content: Self)
        ensures
            content is Nothing,
    {
        Content::Nothing
    }
}

impl<T: Clone, P: Clone> Content<T, P> {
    /// The same state with references in place of the values.
    pub fn as_ref(&self) -> (shared: Content<&T, &P>)
        ensures
            match *self {
                Content::Nothing => shared is Nothing,
                Content::NewFile(name) => shared == Content::<&T, &P>::NewFile(&name),
                Content::Encrypted(name, iv, data, mac) => shared == Content::<
                    &T,
                    &P,
                >::Encrypted(&name, &iv, &data, &mac),
                Content::PlainText(name, doc, index) => shared == Content::<&T, &P>::PlainText(
                    &name,
                    &doc,
                    index,
                ),
                Content::Error(message) => shared == Content::<&T, &P>::Error(&message),
                Content::Success(message) => shared == Content::<&T, &P>::Success(&message),
            },
    {
        match self {
            Content::Encrypted(title, a, b, c) => Content::Encrypted(title, a, b, c),
            Content::PlainText(title, a, index) => Content::PlainText(title, a, *index),
            Content::Error(a) => Content::Error(a),
            Content::Success(a) => Content::Success(a),
            Content::Nothing => Content::Nothing,
            Content::NewFile(title) => Content::NewFile(title),
        }
    }

    /// The document of an open note. Nothing is changed.
    pub fn get_plaintext(&mut self) -> (doc: Option<&P>)
        ensures
            match *old(self) {
                Content::PlainText(_, held, _) => doc == Some(&held),
                _ => doc is None,
            },
            *final(self) == *old(self),
    {
        match self {
            Content::PlainText(_, a, _) => Some(a),
            _ => None,
        }
    }

    /// The document of an open note, to be changed in place. Name and
    /// selection stay as they are.
    pub fn get_plaintext_mut(&mut self) -> (doc: Option<&mut P>)
        ensures
            match *old(self) {
                Content::PlainText(name, held, index) => doc matches Some(r) && *r == held
                    && *final(self) == Content::<T, P>::PlainText(name, *final(r), index),
                _ => doc is None && *final(self) == *old(self),
            },
    {
        match self {
            Content::PlainText(_, a, _) => Some(a),
            _ => None,
        }
    }

    /// Moves the selection of an open note one place up, unless it is at
    /// the top.
    pub fn decrease_selected_index(&mut self)
        ensures
            match *old(self) {
                Content::PlainText(name, doc, index) => *final(self) == Content::<
                    T,
                    P,
                >::PlainText(
                    name,
                    doc,
                    if index == 0 {
                        0
                    } else {
                        (index - 1) as usize
                    },
                ),
                _ => *final(self) == *old(self),
            },
    {
        match self {
            Content::PlainText(_, _, index) => {
                *index = (*index).saturating_sub(1);
            },
            _ => {},
        }
    }

    /// Moves the selection of an open note one place down, unless it is at
    /// the largest place there is.
    pub fn increase_selected_index(&mut self)
        ensures
            match *old(self) {
                Content::PlainText(name, doc, index) => *final(self) == Content::<
                    T,
                    P,
                >::PlainText(
                    name,
                    doc,
                    if index == usize::MAX {
                        index
                    } else {
                        (index + 1) as usize
                    },
                ),
                _ => *final(self) == *old(self),
            },
    {
        match self {
            Content::PlainText(_, _, index) => {
                *index = (*index).saturating_add(1);
            },
            _ => {},
        }
    }

    /// The name of the note at hand, if a note is at hand.
    pub fn get_file_name(&self) -> (name: Option<&T>)
        ensures
            match *self {
                Content::Encrypted(held, _, _, _) => name == Some(&held),
                Content::PlainText(held, _, _) => name == Some(&held),
                Content::NewFile(held) => name == Some(&held),
                Content::Error(_) => name is None,
                Content::Success(_) => name is None,
                Content::Nothing => name is None,
            },
    {
        match self {
            Content::Encrypted(filename, _, _, _) => Some(filename),
            Content::PlainText(filename, _, _) => Some(filename),
            Content::Error(_) => None,
            Content::Success(_) => None,
            Content::NewFile(filename) => Some(filename),
            Content::Nothing => None,
        }
    }
}

} // verus!
