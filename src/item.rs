use crate::error::HelperError;
use vstd::prelude::*;

verus! {

/// Path pattern of an item image: `/2DItems/<category>/<subcategory>` followed by
/// `.png` or another path separator.
pub const ICON_PATTERN: &'static str = r"/2DItems/(.+?)/(.+?)(\.png|/)";

/// Rarity code of the items that can take part in a recipe.
pub const QUALIFYING_FRAME_TYPE: usize = 2;

/// Lowest item level that can take part in a recipe.
pub const MIN_ITEM_LEVEL: usize = 60;

/// Lowest item level of the high tier.
pub const HIGH_TIER_LEVEL: usize = 75;

/// The slot kinds an item can fill.
#[derive(Clone, Copy, Debug, PartialEq, Eq, Hash, Structural)]
pub enum ItemType {
    Weapon1HOrShield,
    Weapon2H,
    Body,
    Helmet,
    Boots,
    Gloves,
    Ring,
    Amulet,
    Belt,
    Useless,
}

/// Number of item types.
pub const ITEM_TYPE_COUNT: usize = 10;

impl ItemType {
    /// Position of the type in a per-type table.
    pub open spec fn slot(self) -> int {
        match self {
            ItemType::Weapon1HOrShield => 0,
            ItemType::Weapon2H => 1,
            ItemType::Body => 2,
            ItemType::Helmet => 3,
            ItemType::Boots => 4,
            ItemType::Gloves => 5,
            ItemType::Ring => 6,
            ItemType::Amulet => 7,
            ItemType::Belt => 8,
            ItemType::Useless => 9,
        }
    }

    pub fn slot_index(self) -> (r: usize)
        ensures
            r as int == self.slot(),
            r < ITEM_TYPE_COUNT,
    {
        match self {
            ItemType::Weapon1HOrShield => 0,
            ItemType::Weapon2H => 1,
            ItemType::Body => 2,
            ItemType::Helmet => 3,
            ItemType::Boots => 4,
            ItemType::Gloves => 5,
            ItemType::Ring => 6,
            ItemType::Amulet => 7,
            ItemType::Belt => 8,
            ItemType::Useless => 9,
        }
    }
}

/// The type found at position `i` of a per-type table.
pub open spec fn type_at(i: int) -> ItemType {
    if i == 0 {
        ItemType::Weapon1HOrShield
    } else if i == 1 {
        ItemType::Weapon2H
    } else if i == 2 {
        ItemType::Body
    } else if i == 3 {
        ItemType::Helmet
    } else if i == 4 {
        ItemType::Boots
    } else if i == 5 {
        ItemType::Gloves
    } else if i == 6 {
        ItemType::Ring
    } else if i == 7 {
        ItemType::Amulet
    } else if i == 8 {
        ItemType::Belt
    } else {
        ItemType::Useless
    }
}

pub fn type_at_index(i: usize) -> (r: ItemType)
    requires
        i < ITEM_TYPE_COUNT,
    ensures
        r == type_at(i as int),
        r.slot() == i,
{
    if i == 0 {
        ItemType::Weapon1HOrShield
    } else if i == 1 {
        ItemType::Weapon2H
    } else if i == 2 {
        ItemType::Body
    } else if i == 3 {
        ItemType::Helmet
    } else if i == 4 {
        ItemType::Boots
    } else if i == 5 {
        ItemType::Gloves
    } else if i == 6 {
        ItemType::Ring
    } else if i == 7 {
        ItemType::Amulet
    } else if i == 8 {
        ItemType::Belt
    } else {
        ItemType::Useless
    }
}

/// One classified stash entry: grid position and size, item level, rarity code and type.
#[derive(Clone, Copy, Debug, PartialEq, Eq, Structural)]
pub struct Item {
    pub w: usize,
    pub h: usize,
    pub x: usize,
    pub y: usize,
    pub ilvl: usize,
    pub frame_type: usize,
    pub itype: ItemType,
}

/// One stash entry as the remote service describes it, before classification.
#[derive(Clone, Debug)]
pub struct RawItem {
    pub w: usize,
    pub h: usize,
    pub x: usize,
    pub y: usize,
    pub ilvl: usize,
    pub frame_type: usize,
    pub icon: String,
}

/// One stash snapshot: its entries and whether the tab is double-sized.
#[derive(Clone, Debug)]
pub struct StashData {
    pub items: Vec<RawItem>,
    pub quad_layout: bool,
}

/// What `regex` finds for `pattern` in `haystack`: the texts of the first two
/// capture groups of the leftmost match, or nothing when there is no match.
pub uninterp spec fn two_groups(pattern: Seq<char>, haystack: Seq<char>) -> Option<(Seq<char>, Seq<char>)>;

/// Relies on `regex::Regex::new` and `regex::Regex::captures`: the first and
/// second capture groups of the leftmost match of `pattern` in `haystack`;
/// `None` when the pattern does not compile or does not match.
#[verifier::external_body]
fn capture_two_groups(pattern: &str, haystack: &str) -> (r: Option<(String, String)>)
    ensures
        match r {
            Some((a, b)) => two_groups(pattern@, haystack@) == Some((a@, b@)),
            None => two_groups(pattern@, haystack@) is None,
        },
{
    let re = regex::Regex::new(pattern).ok()?;
    let caps = re.captures(haystack)?;
    Some((caps.get(1)?.as_str().to_string(), caps.get(2)?.as_str().to_string()))
}

/// The type that the rule table gives to a `<category>/<subcategory>` pair.
pub open spec fn type_of_parts(category: Seq<char>, subcategory: Seq<char>) -> ItemType {
    if category == "Armours"@ && subcategory == "Boots"@ {
        ItemType::Boots
    } else if category == "Armours"@ && subcategory == "Helmets"@ {
        ItemType::Helmet
    } else if category == "Armours"@ && subcategory == "Gloves"@ {
        ItemType::Gloves
    } else if category == "Armours"@ && subcategory == "BodyArmours"@ {
        ItemType::Body
    } else if category == "Armours"@ && subcategory == "Shields"@ {
        ItemType::Weapon1HOrShield
    } else if category == "Weapons"@ && subcategory == "OneHandWeapons"@ {
        ItemType::Weapon1HOrShield
    } else if category == "Weapons"@ && subcategory == "TwoHandWeapons"@ {
        ItemType::Weapon2H
    } else if category == "Weapons"@ && subcategory == "Bows"@ {
        ItemType::Weapon2H
    } else if category == "Amulets"@ {
        ItemType::Amulet
    } else if category == "Rings"@ {
        ItemType::Ring
    } else if category == "Belts"@ {
        ItemType::Belt
    } else {
        ItemType::Useless
    }
}

/// The type of an item identifier, or `None` when it is malformed.
pub open spec fn icon_type(icon: Seq<char>) -> Option<ItemType> {
    match two_groups(ICON_PATTERN@, icon) {
        Some((category, subcategory)) => Some(type_of_parts(category, subcategory)),
        None => None,
    }
}

fn text_is(s: &String, lit: &str) -> (r: bool)
    ensures
        r == (s@ == lit@),
{
    *s == String::from_str(lit)
}

/// Applies the rule table to a `<category>/<subcategory>` pair.
pub fn item_type_from_parts(category: &String, subcategory: &String) -> (r: ItemType)
    ensures
        r == type_of_parts(category@, subcategory@),
{
    let armours = text_is(category, "Armours");
    let weapons = text_is(category, "Weapons");
    if armours && text_is(subcategory, "Boots") {
        ItemType::Boots
    } else if armours && text_is(subcategory, "Helmets") {
        ItemType::Helmet
    } else if armours && text_is(subcategory, "Gloves") {
        ItemType::Gloves
    } else if armours && text_is(subcategory, "BodyArmours") {
        ItemType::Body
    } else if armours && text_is(subcategory, "Shields") {
        ItemType::Weapon1HOrShield
    } else if weapons && text_is(subcategory, "OneHandWeapons") {
        ItemType::Weapon1HOrShield
    } else if weapons && text_is(subcategory, "TwoHandWeapons") {
        ItemType::Weapon2H
    } else if weapons && text_is(subcategory, "Bows") {
        ItemType::Weapon2H
    } else if text_is(category, "Amulets") {
        ItemType::Amulet
    } else if text_is(category, "Rings") {
        ItemType::Ring
    } else if text_is(category, "Belts") {
        ItemType::Belt
    } else {
        ItemType::Useless
    }
}

/// Derives the type of an item from its image path.
pub fn item_type_from_icon(icon: &str) -> (r: Result<ItemType, HelperError>)
    ensures
        match r {
            Ok(t) => icon_type(icon@) == Some(t),
            Err(e) => {
                &&& icon_type(icon@) is None
                &&& e matches HelperError::MalformedIdentifier(s) && s@ == icon@
            },
        },
{
    match capture_two_groups(ICON_PATTERN, icon) {
        Some((category, subcategory)) => Ok(item_type_from_parts(&category, &subcategory)),
        None => Err(HelperError::MalformedIdentifier(String::from_str(icon))),
    }
}

} // verus!
