//! The metadata record of one item, filled from its configuration text.
use vstd::prelude::*;
use crate::config::{
    config_value, flag_or_default, flag_or_false, number_or_default, number_or_zero, parse_unsigned,
    ItemConfig,
};

verus! {

/// The metadata of one character, buddy, stage or skin.
#[derive(Debug)]
pub struct Item {
    pub icon: String,
    pub name: String,
    pub item_type: u8,
    pub url: u32,
    pub author: String,
    pub description: String,
    pub version: (u8, u8),
    pub finished: bool,
    pub bg_color: String,
    pub plural: bool,
    pub root: String,
}

/// Whether `it` holds what the configuration text `t` gives each field,
/// with the defaulting policy for the numeric and boolean ones.
pub open spec fn item_of_config(it: Item, t: Seq<char>) -> bool {
    &&& it.icon@ == config_value(t, "icon"@)
    &&& it.name@ == config_value(t, "name"@)
    &&& it.item_type as int == number_or_zero(config_value(t, "type"@), 255)
    &&& it.url as int == number_or_zero(config_value(t, "url"@), 4294967295)
    &&& it.author@ == config_value(t, "author"@)
    &&& it.description@ == config_value(t, "description"@)
    &&& it.version.0 as int == number_or_zero(config_value(t, "major_version"@), 255)
    &&& it.version.1 as int == number_or_zero(config_value(t, "minor_version"@), 255)
    &&& it.finished == flag_or_false(config_value(t, "finished"@))
    &&& it.bg_color@ == config_value(t, "bg_color"@)
    &&& it.plural == flag_or_false(config_value(t, "plural"@))
    &&& it.root@ == config_value(t, "root"@)
}

impl Item {
    /// Every text field empty, every number zero, every flag false.
    pub open spec fn is_default(&self) -> bool {
        &&& self.icon@.len() == 0
        &&& self.name@.len() == 0
        &&& self.item_type == 0
        &&& self.url == 0
        &&& self.author@.len() == 0
        &&& self.description@.len() == 0
        &&& self.version == (0u8, 0u8)
        &&& !self.finished
        &&& self.bg_color@.len() == 0
        &&& !self.plural
        &&& self.root@.len() == 0
    }

    /// A record with default values, as for an item without configuration.
    pub fn new() -> (r: Item)
        ensures
            r.is_default(),
    {
        Item {
            icon: String::new(),
            name: String::new(),
            item_type: 0,
            url: 0,
            author: String::new(),
            description: String::new(),
            version: (0, 0),
            finished: false,
            bg_color: String::new(),
            plural: false,
            root: String::new(),
        }
    }

    /// The record that the configuration text `text` describes.
    pub fn from_config(text: &str) -> (r: Item)
        ensures
            item_of_config(r, text@),
            parse_unsigned(config_value(text@, "major_version"@), 255) is None ==> r.version.0 == 0,
    {
        let item_type = number_or_default(ItemConfig::get_value_from_config("type", text).as_str(), 255);
        let url = number_or_default(ItemConfig::get_value_from_config("url", text).as_str(), 4294967295);
        let major = number_or_default(
            ItemConfig::get_value_from_config("major_version", text).as_str(),
            255,
        );
        let minor = number_or_default(
            ItemConfig::get_value_from_config("minor_version", text).as_str(),
            255,
        );
        Item {
            icon: ItemConfig::get_value_from_config("icon", text),
            name: ItemConfig::get_value_from_config("name", text),
            item_type: item_type as u8,
            url,
            author: ItemConfig::get_value_from_config("author", text),
            description: ItemConfig::get_value_from_config("description", text),
            version: (major as u8, minor as u8),
            finished: flag_or_default(ItemConfig::get_value_from_config("finished", text).as_str()),
            bg_color: ItemConfig::get_value_from_config("bg_color", text),
            plural: flag_or_default(ItemConfig::get_value_from_config("plural", text).as_str()),
            root: ItemConfig::get_value_from_config("root", text),
        }
    }

    /// A copy of this record.
    pub fn duplicate(&self) -> (r: Item)
        ensures
            r == *self,
    {
        Item {
            icon: self.icon.clone(),
            name: self.name.clone(),
            item_type: self.item_type,
            url: self.url,
            author: self.author.clone(),
            description: self.description.clone(),
            version: self.version,
            finished: self.finished,
            bg_color: self.bg_color.clone(),
            plural: self.plural,
            root: self.root.clone(),
        }
    }
}

/// An empty configuration text gives the default record: a missing
/// configuration and an empty one read alike.
pub proof fn lemma_empty_config_is_default(it: Item, t: Seq<char>)
    requires
        item_of_config(it, t),
        t.len() == 0,
    ensures
        it.is_default(),
{
    assert(seq!['t', 'r', 'u', 'e'].len() == 4);
}

/// A major version that does not parse as a number up to 255 reads as zero,
/// not as an error.
pub proof fn lemma_unparsable_major_version(it: Item, t: Seq<char>)
    requires
        item_of_config(it, t),
        parse_unsigned(config_value(t, "major_version"@), 255) is None,
    ensures
        it.version.0 == 0,
{
}

} // verus!
