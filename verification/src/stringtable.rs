//! Localized string tables.
//!
//! A table maps a `_locID` to its localized text, as parsed from
//! `data\stringtable-{lang}.xml` in `locale.era`. Entries may carry an
//! alternate text for mouse and keyboard, which the engine prefers on PC.
use vstd::prelude::*;

use std::collections::HashMap;

use crate::text::{chars_of, concat_chars, concat_str, string_from_chars};

verus! {

broadcast use vstd::std_specs::hash::group_hash_axioms;

/// A single localized string entry.
#[derive(Debug, Clone, PartialEq, Eq)]
pub struct StringEntry {
    /// The localized text (default / gamepad version).
    pub text: String,
    /// Alternate text for mouse and keyboard input, used instead of `text`
    /// on PC when present.
    pub mouse_keyboard: Option<String>,
    /// Category tag (such as `Code`, `Objects`, `Powers`).
    pub category: String,
    /// Whether this is a subtitle string.
    pub subtitle: bool,
}

/// A loaded string table: maps `_locID` to localized text.
#[derive(Debug, Clone)]
pub struct StringTable {
    /// The language code (such as `en`, `de`).
    pub language_code: String,
    /// The language name from the document (such as `English`).
    pub language_name: String,
    /// Strings keyed by `_locID`.
    pub strings: HashMap<i32, StringEntry>,
}

/// One `<String>` element of a string table document, as read: its element
/// name and the attributes and text the table takes.
#[derive(Debug, Clone, PartialEq, Eq)]
pub struct StringElement {
    pub name: String,
    /// The `_locID` attribute, when present and a valid integer.
    pub loc_id: Option<i32>,
    pub text: String,
    /// The `_mouseKeyboard` attribute.
    pub mouse_keyboard: Option<String>,
    /// The `category` attribute.
    pub category: Option<String>,
    /// The `subtitle` attribute, when present and a boolean.
    pub subtitle: Option<bool>,
}

/// The entry is the one an element makes: a missing category is empty and
/// a missing subtitle flag is false.
pub open spec fn entry_from(en: StringEntry, e: StringElement) -> bool {
    &&& en.text == e.text
    &&& en.mouse_keyboard == e.mouse_keyboard
    &&& en.category@ == match e.category {
        Some(c) => c@,
        None => Seq::<char>::empty(),
    }
    &&& en.subtitle == match e.subtitle {
        Some(b) => b,
        None => false,
    }
}

/// The element that defines each ID, in order: every `String` element with
/// a `_locID`, a later one replacing an earlier one with the same ID.
pub open spec fn defining_elements(es: Seq<StringElement>) -> Map<i32, StringElement>
    decreases es.len(),
{
    if es.len() == 0 {
        Map::empty()
    } else {
        let prev = defining_elements(es.drop_last());
        let e = es.last();
        if e.name@ == "String"@ && e.loc_id is Some {
            prev.insert(e.loc_id.unwrap(), e)
        } else {
            prev
        }
    }
}

/// The table holds an entry for exactly the defined IDs, each made from its
/// defining element.
pub open spec fn table_from(strings: Map<i32, StringEntry>, es: Seq<StringElement>) -> bool {
    &&& strings.dom() == defining_elements(es).dom()
    &&& forall|id: i32| #[trigger] strings.contains_key(id) ==> entry_from(strings[id], defining_elements(es)[id])
}

/// The game path of the string table of a language.
pub open spec fn string_table_path(lang: Seq<char>) -> Seq<char> {
    "data\\stringtable-"@ + lang + ".xml"@
}

/// The game path of the string table of a language.
pub fn table_path(lang: &str) -> (r: String)
    ensures
        r@ == string_table_path(lang@),
{
    let a = concat_str(chars_of("data\\stringtable-").as_slice(), lang);
    string_from_chars(concat_str(a.as_slice(), ".xml").as_slice())
}

impl StringTable {
    /// The table of a language built from the elements of its document.
    pub fn from_elements(language_code: String, language_name: String, elements: Vec<StringElement>) -> (r: Self)
        ensures
            r.language_code == language_code,
            r.language_name == language_name,
            table_from(r.strings@, elements@),
    {
        let ghost all = elements@;
        let mut elements = elements;
        let mut rev: Vec<StringElement> = Vec::new();
        while elements.len() > 0
            invariant
                all == elements@ + rev@.reverse(),
            decreases elements@.len(),
        {
            let ghost before = elements@;
            let ghost rb = rev@;
            let e = elements.pop().unwrap();
            rev.push(e);
            assert(rev@.reverse() =~= seq![e] + rb.reverse());
            assert(before =~= elements@.push(e));
        }
        assert(all =~= rev@.reverse());
        let mut strings: HashMap<i32, StringEntry> = HashMap::new();
        while rev.len() > 0
            invariant
                rev@.len() <= all.len(),
                all == all.take(all.len() - rev@.len()) + rev@.reverse(),
                table_from(strings@, all.take(all.len() - rev@.len())),
            decreases rev@.len(),
        {
            let ghost k = all.len() - rev@.len();
            let ghost rb = rev@;
            let e = rev.pop().unwrap();
            proof {
                assert(rb =~= rev@.push(e));
                assert(rb.reverse() =~= seq![e] + rev@.reverse());
                assert(all[k] == e);
                assert(all.take(k + 1).drop_last() =~= all.take(k));
                assert(all.take(k + 1).last() == e);
                assert(all =~= all.take(k + 1) + rev@.reverse());
            }
            if e.name == String::from_str("String") {
                match e.loc_id {
                    Some(id) => {
                        let category = match e.category {
                            Some(c) => c,
                            None => String::new(),
                        };
                        let subtitle = match e.subtitle {
                            Some(b) => b,
                            None => false,
                        };
                        let ghost ev = e;
                        let entry = StringEntry { text: e.text, mouse_keyboard: e.mouse_keyboard, category, subtitle };
                        let ghost before = strings@;
                        strings.insert(id, entry);
                        proof {
                            assert(entry_from(entry, ev));
                            assert(strings@.dom() =~= defining_elements(all.take(k + 1)).dom());
                        }
                    },
                    None => {},
                }
            }
        }
        assert(all.take(all.len() as int) =~= all);
        StringTable { language_code, language_name, strings }
    }

    /// The default (gamepad) text of a `_locID`.
    pub fn get(&self, loc_id: i32) -> (r: Option<&str>)
        ensures
            match r {
                Some(s) => self.strings@.contains_key(loc_id) && s@ == self.strings@[loc_id].text@,
                None => !self.strings@.contains_key(loc_id),
            },
    {
        match self.strings.get(&loc_id) {
            Some(e) => Some(e.text.as_str()),
            None => None,
        }
    }

    /// The text of a `_locID` as shown on PC: the mouse and keyboard
    /// override when the entry has one, else the default text.
    pub fn get_pc(&self, loc_id: i32) -> (r: Option<&str>)
        ensures
            match r {
                Some(s) => self.strings@.contains_key(loc_id) && s@ == match self.strings@[loc_id].mouse_keyboard {
                    Some(mk) => mk@,
                    None => self.strings@[loc_id].text@,
                },
                None => !self.strings@.contains_key(loc_id),
            },
    {
        match self.strings.get(&loc_id) {
            Some(e) => match &e.mouse_keyboard {
                Some(mk) => Some(mk.as_str()),
                None => Some(e.text.as_str()),
            },
            None => None,
        }
    }

    /// The entry of a `_locID`.
    pub fn get_entry(&self, loc_id: i32) -> (r: Option<&StringEntry>)
        ensures
            match r {
                Some(e) => self.strings@.contains_key(loc_id) && *e == self.strings@[loc_id],
                None => !self.strings@.contains_key(loc_id),
            },
    {
        self.strings.get(&loc_id)
    }

    /// Number of strings in this table.
    pub fn len(&self) -> (r: usize)
        ensures
            r == self.strings@.len(),
    {
        self.strings.len()
    }

    /// Whether this table is empty.
    pub fn is_empty(&self) -> (r: bool)
        ensures
            r == (self.strings@.len() == 0),
    {
        self.strings.len() == 0
    }
}

} // verus!
