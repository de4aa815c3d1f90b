//! What the dialogue with the user decides.
//!
//! Nothing here asks a question or reads an answer. Each function takes what
//! the user was shown or has answered as plain values, and says what is shown
//! or done next: which menu, which version, which gain, which place to save
//! to.

use crate::models::Version;
use crate::models::VersionListResponse;
use crate::text::decimal_digits;
use crate::text::decimal_value;
use crate::text::lemma_decimal_digits_write_the_number;
use crate::text::is_digit;
use crate::text::same_text;
use vstd::prelude::*;

verus! {

/// One line of a menu: the value that choosing it gives, the label that is
/// shown, and a hint shown beside it.
pub struct MenuItem {
    pub value: String,
    pub label: String,
    pub hint: String,
}

/// A line of a menu as a mathematical value: value, label, hint.
pub type MenuLine = (Seq<char>, Seq<char>, Seq<char>);

/// The lines of a menu, in order.
pub open spec fn menu_lines(items: Seq<MenuItem>) -> Seq<MenuLine> {
    Seq::new(items.len(), |i: int| (items[i].value@, items[i].label@, items[i].hint@))
}

/// The menus of the choice of a version.
#[derive(Clone, Copy, Debug, PartialEq, Eq, Structural)]
pub enum VersionMenu {
    /// The newest release, the newest snapshot, or one of the two lists.
    Main,
    /// All releases.
    Releases,
    /// All snapshots.
    Snapshots,
}

/// What follows from an answer to a version menu.
pub enum VersionChoice {
    /// Another menu is shown.
    Menu(VersionMenu),
    /// The version is chosen: its manifest is found at this address.
    Url(String),
    /// No version has the id that was chosen.
    Unknown,
}

/// The ids of the versions of one kind, in the order of the list.
pub open spec fn ids_of_kind(versions: Seq<Version>, kind: Seq<char>) -> Seq<Seq<char>>
    decreases versions.len(),
{
    if versions.len() == 0 {
        Seq::empty()
    } else {
        let earlier = ids_of_kind(versions.drop_last(), kind);
        if versions.last().variant@ == kind {
            earlier.push(versions.last().id@)
        } else {
            earlier
        }
    }
}

/// The menu that offers each of `ids` under its own name.
pub open spec fn lines_of_ids(ids: Seq<Seq<char>>) -> Seq<MenuLine> {
    Seq::new(ids.len(), |i: int| (ids[i], ids[i], ""@))
}

/// The lines of the main menu.
pub open spec fn main_lines(release: Seq<char>, snapshot: Seq<char>) -> Seq<MenuLine> {
    seq![
        (release, "latest release ("@ + release + ")"@, ""@),
        (snapshot, "latest snapshot ("@ + snapshot + ")"@, ""@),
        ("view_releases"@, "view releases"@, ""@),
        ("view_snapshots"@, "view snapshots"@, ""@),
    ]
}

/// The lines of a version menu.
pub open spec fn version_lines(response: VersionListResponse, menu: VersionMenu) -> Seq<MenuLine> {
    match menu {
        VersionMenu::Main => main_lines(response.latest.release@, response.latest.snapshot@),
        VersionMenu::Releases => lines_of_ids(ids_of_kind(response.versions@, "release"@)),
        VersionMenu::Snapshots => lines_of_ids(ids_of_kind(response.versions@, "snapshot"@)),
    }
}

/// Version `i` is the first of `versions` with the id `id`.
pub open spec fn is_first_with_id(versions: Seq<Version>, id: Seq<char>, i: int) -> bool {
    &&& 0 <= i < versions.len()
    &&& versions[i].id@ == id
    &&& forall|j: int| 0 <= j < i ==> (#[trigger] versions[j]).id@ != id
}

/// No version of `versions` has the id `id`.
pub open spec fn no_version_has_id(versions: Seq<Version>, id: Seq<char>) -> bool {
    forall|j: int| 0 <= j < versions.len() ==> (#[trigger] versions[j]).id@ != id
}

fn menu_item(value: &str, label: &str, hint: &str) -> (item: MenuItem)
    ensures
        item.value@ == value@,
        item.label@ == label@,
        item.hint@ == hint@,
{
    MenuItem {
        value: String::from_str(value),
        label: String::from_str(label),
        hint: String::from_str(hint),
    }
}

fn labelled(prefix: &str, id: &str) -> (label: String)
    ensures
        label@ == prefix@ + id@ + ")"@,
{
    let mut label = String::from_str(prefix);
    label.append(id);
    label.append(")");
    label
}

/// The menu of all versions of one kind, each under its id.
pub fn versions_of_kind(versions: &Vec<Version>, kind: &str) -> (items: Vec<MenuItem>)
    ensures
        menu_lines(items@) == lines_of_ids(ids_of_kind(versions@, kind@)),
{
    let mut items: Vec<MenuItem> = Vec::new();
    let mut i: usize = 0;
    while i < versions.len()
        invariant
            i <= versions.len(),
            menu_lines(items@) == lines_of_ids(ids_of_kind(versions@.take(i as int), kind@)),
        decreases versions.len() - i,
    {
        let ghost before = menu_lines(items@);
        let ghost ids = ids_of_kind(versions@.take(i as int), kind@);
        assert(versions@.take(i + 1).drop_last() == versions@.take(i as int));
        assert(versions@.take(i + 1).last() == versions[i as int]);
        let version = &versions[i];
        if same_text(version.variant.as_str(), kind) {
            let id = version.id.as_str();
            items.push(menu_item(id, id, ""));
            proof {
                let line = (version.id@, version.id@, ""@);
                assert(menu_lines(items@) == before.push(line));
                assert(lines_of_ids(ids.push(version.id@)) == lines_of_ids(ids).push(line));
            }
        }
        i += 1;
    }
    assert(versions@.take(i as int) == versions@);
    items
}

/// The lines of a version menu.
pub fn version_menu(response: &VersionListResponse, menu: VersionMenu) -> (items: Vec<MenuItem>)
    ensures
        menu_lines(items@) == version_lines(*response, menu),
{
    match menu {
        VersionMenu::Main => {
            let release = response.latest.release.as_str();
            let snapshot = response.latest.snapshot.as_str();
            let mut items: Vec<MenuItem> = Vec::new();
            items.push(
                MenuItem {
                    value: String::from_str(release),
                    label: labelled("latest release (", release),
                    hint: String::from_str(""),
                },
            );
            items.push(
                MenuItem {
                    value: String::from_str(snapshot),
                    label: labelled("latest snapshot (", snapshot),
                    hint: String::from_str(""),
                },
            );
            items.push(menu_item("view_releases", "view releases", ""));
            items.push(menu_item("view_snapshots", "view snapshots", ""));
            assert(menu_lines(items@) == main_lines(
                response.latest.release@,
                response.latest.snapshot@,
            ));
            items
        },
        VersionMenu::Releases => versions_of_kind(&response.versions, "release"),
        VersionMenu::Snapshots => versions_of_kind(&response.versions, "snapshot"),
    }
}

/// The address of the manifest of the first version with the id `id`.
pub fn find_version_url(versions: &Vec<Version>, id: &str) -> (url: Option<String>)
    ensures
        match url {
            Some(url) => exists|i: int|
                #[trigger] is_first_with_id(versions@, id@, i) && url@ == versions[i].url@,
            None => no_version_has_id(versions@, id@),
        },
{
    let mut i: usize = 0;
    while i < versions.len()
        invariant
            i <= versions.len(),
            forall|j: int| 0 <= j < i ==> (#[trigger] versions@[j]).id@ != id@,
        decreases versions.len() - i,
    {
        if same_text(versions[i].id.as_str(), id) {
            assert(is_first_with_id(versions@, id@, i as int));
            return Some(versions[i].url.clone());
        }
        i += 1;
    }
    None
}

/// What follows from the answer `selection` to the menu `menu`.
///
/// In the main menu the answers `view_releases` and `view_snapshots` lead to
/// the two lists. Every other answer, and every answer to one of the lists, is
/// the id of a version: what follows is the address of that version's
/// manifest, or [`VersionChoice::Unknown`] where no version has that id.
pub fn choose_version(response: &VersionListResponse, menu: VersionMenu, selection: &str) -> (choice:
    VersionChoice)
    ensures
        menu == VersionMenu::Main && selection@ == "view_releases"@ ==> choice
            matches VersionChoice::Menu(VersionMenu::Releases),
        menu == VersionMenu::Main && selection@ == "view_snapshots"@ ==> choice
            matches VersionChoice::Menu(VersionMenu::Snapshots),
        !(menu == VersionMenu::Main && (selection@ == "view_releases"@ || selection@
            == "view_snapshots"@)) ==> match choice {
            VersionChoice::Menu(_) => false,
            VersionChoice::Url(url) => exists|i: int|
                #[trigger] is_first_with_id(response.versions@, selection@, i) && url@
                    == response.versions[i].url@,
            VersionChoice::Unknown => no_version_has_id(response.versions@, selection@),
        },
{
    proof {
        reveal_strlit("view_releases");
        reveal_strlit("view_snapshots");
        assert("view_releases"@.len() != "view_snapshots"@.len());
    }
    if menu == VersionMenu::Main {
        if same_text(selection, "view_releases") {
            return VersionChoice::Menu(VersionMenu::Releases);
        }
        if same_text(selection, "view_snapshots") {
            return VersionChoice::Menu(VersionMenu::Snapshots);
        }
    }
    match find_version_url(&response.versions, selection) {
        Some(url) => VersionChoice::Url(url),
        None => VersionChoice::Unknown,
    }
}

/// One line of the menu of gains.
pub struct GainItem {
    pub value: u32,
    pub label: String,
    pub hint: String,
}

/// A line of the menu of gains as a mathematical value.
pub type GainLine = (u32, Seq<char>, Seq<char>);

/// The lines of a menu of gains, in order.
pub open spec fn gain_lines(items: Seq<GainItem>) -> Seq<GainLine> {
    Seq::new(items.len(), |i: int| (items[i].value, items[i].label@, items[i].hint@))
}

/// The gains that are offered. The value `0` stands for a gain that the user
/// types in.
pub open spec fn offered_gains() -> Seq<GainLine> {
    seq![
        (12u32, "12db"@, ""@),
        (24u32, "24db"@, ""@),
        (36u32, "36db"@, ""@),
        (48u32, "48db"@, "very dangerous"@),
        (72u32, "72db"@, "extremely dangerous. the sounds are bearly audible"@),
        (0u32, "custom"@, "be careful"@),
    ]
}

fn gain_item(value: u32, label: &str, hint: &str) -> (item: GainItem)
    ensures
        item.value == value,
        item.label@ == label@,
        item.hint@ == hint@,
{
    GainItem { value, label: String::from_str(label), hint: String::from_str(hint) }
}

/// The menu of gains.
pub fn gain_menu() -> (items: Vec<GainItem>)
    ensures
        gain_lines(items@) == offered_gains(),
{
    let mut items: Vec<GainItem> = Vec::new();
    items.push(gain_item(12, "12db", ""));
    items.push(gain_item(24, "24db", ""));
    items.push(gain_item(36, "36db", ""));
    items.push(gain_item(48, "48db", "very dangerous"));
    items.push(gain_item(72, "72db", "extremely dangerous. the sounds are bearly audible"));
    items.push(gain_item(0, "custom", "be careful"));
    assert(gain_lines(items@) == offered_gains());
    items
}

/// What follows from an answer to the menu of gains.
#[derive(Clone, Copy, Debug, PartialEq, Eq, Structural)]
pub enum GainChoice {
    /// The gain is chosen.
    Gain(u32),
    /// The user is asked to type the gain in.
    Custom,
}

/// What follows from the answer `selection` to the menu of gains: `0` asks
/// for a gain that is typed in, every other value is the gain.
pub fn choose_gain(selection: u32) -> (choice: GainChoice)
    ensures
        choice == if selection == 0 {
            GainChoice::Custom
        } else {
            GainChoice::Gain(selection)
        },
{
    if selection == 0 {
        GainChoice::Custom
    } else {
        GainChoice::Gain(selection)
    }
}

/// Whether a text starts with a sign.
pub open spec fn has_sign(text: Seq<char>) -> bool {
    text.len() > 0 && (text[0] == '+' || text[0] == '-')
}

/// A text without its sign, if it has one.
pub open spec fn unsigned_part(text: Seq<char>) -> Seq<char> {
    if has_sign(text) {
        text.drop_first()
    } else {
        text
    }
}

/// Whether a text writes a whole number: an optional sign, then one or more
/// decimal digits and nothing else.
pub open spec fn is_number(text: Seq<char>) -> bool {
    let digits = unsigned_part(text);
    digits.len() > 0 && forall|i: int| 0 <= i < digits.len() ==> is_digit(#[trigger] digits[i])
}

/// The number that a text writes.
pub open spec fn number_value(text: Seq<char>) -> int {
    let size = decimal_value(unsigned_part(text)) as int;
    if text.len() > 0 && text[0] == '-' {
        -size
    } else {
        size
    }
}

/// What is made of a gain that the user has typed in.
#[derive(Clone, Copy, Debug, PartialEq, Eq, Structural)]
pub enum GainInput {
    /// The text is the gain.
    Gain(u32),
    /// The text is no number other than zero that fits in 32 bits with a
    /// sign: the user is told to enter a non-zero number.
    Refused,
    /// The text is such a number and is negative: it is no gain.
    Negative,
}

/// What is made of the text `text`, typed in as a gain.
pub open spec fn gain_input(text: Seq<char>) -> GainInput {
    if !is_number(text) || number_value(text) == 0 || number_value(text) < i32::MIN
        || number_value(text) > i32::MAX {
        GainInput::Refused
    } else if number_value(text) < 0 {
        GainInput::Negative
    } else {
        GainInput::Gain(number_value(text) as u32)
    }
}

/// A gain that is written in decimal is read back as that gain, as long as it
/// is not zero and fits in 32 bits with a sign.
pub proof fn lemma_written_gain_is_read_back(gain: u32)
    requires
        0 < gain <= i32::MAX,
    ensures
        gain_input(decimal_digits(gain as nat)) == GainInput::Gain(gain),
{
    let text = decimal_digits(gain as nat);
    lemma_decimal_digits_write_the_number(gain as nat);
    assert(is_digit(text[0]));
    assert(!has_sign(text));
}

/// What is said to a user whose text was refused.
pub fn refusal_message() -> (text: &'static str)
    ensures
        text@ == "please enter a non-zero number!"@,
{
    "please enter a non-zero number!"
}

/// Adding a digit to a number never makes the number smaller.
proof fn lemma_decimal_value_grows(digits: Seq<char>, i: int)
    requires
        0 <= i < digits.len(),
        forall|k: int| 0 <= k < digits.len() ==> is_digit(#[trigger] digits[k]),
    ensures
        decimal_value(digits.take(i + 1)) == decimal_value(digits.take(i)) * 10 + (digits[i] as nat
            - '0' as nat),
        decimal_value(digits.take(i)) <= decimal_value(digits.take(i + 1)),
{
    assert(digits.take(i + 1).drop_last() == digits.take(i));
    assert(digits.take(i + 1).last() == digits[i]);
    assert(is_digit(digits[i]));
}

/// The number grows with every prefix, so a prefix that is too large stays
/// too large.
proof fn lemma_decimal_value_monotone(digits: Seq<char>, i: int, j: int)
    requires
        0 <= i <= j <= digits.len(),
        forall|k: int| 0 <= k < digits.len() ==> is_digit(#[trigger] digits[k]),
    ensures
        decimal_value(digits.take(i)) <= decimal_value(digits.take(j)),
    decreases j - i,
{
    if i < j {
        lemma_decimal_value_grows(digits, j - 1);
        lemma_decimal_value_monotone(digits, i, j - 1);
    }
}

/// Reads a gain that the user has typed in.
pub fn read_gain(text: &str) -> (input: GainInput)
    ensures
        input == gain_input(text@),
{
    let length = text.unicode_len();
    if length == 0 {
        return GainInput::Refused;
    }
    let first = text.get_char(0);
    let negative = first == '-';
    let start: usize = if first == '+' || first == '-' {
        1
    } else {
        0
    };
    if start == length {
        return GainInput::Refused;
    }
    let ghost digits = unsigned_part(text@);
    assert(digits.len() == length - start);
    assert(forall|k: int| 0 <= k < digits.len() ==> digits[k] == text@[k + start]);
    let limit: u64 = if negative {
        2147483648
    } else {
        2147483647
    };
    let mut value: u64 = 0;
    let mut i: usize = start;
    while i < length
        invariant
            start <= i <= length,
            length == text@.len(),
            digits == unsigned_part(text@),
            digits.len() == length - start,
            forall|k: int| 0 <= k < digits.len() ==> digits[k] == text@[k + start],
            forall|k: int| 0 <= k < i - start ==> is_digit(#[trigger] digits[k]),
            value == decimal_value(digits.take(i - start)),
            negative == (text@[0] == '-'),
            limit == if negative {
                2147483648u64
            } else {
                2147483647u64
            },
            value <= limit,
        decreases length - i,
    {
        let c = text.get_char(i);
        if !('0' <= c && c <= '9') {
            assert(!is_digit(digits[i - start]));
            return GainInput::Refused;
        }
        let digit: u64 = (c as u64) - ('0' as u64);
        let ghost shorter = digits.take(i - start);
        let ghost longer = digits.take(i - start + 1);
        assert(longer.drop_last() == shorter);
        assert(longer.last() == c);
        let next: u64 = value * 10 + digit;
        assert(next == decimal_value(longer));
        if next > limit {
            proof {
                if is_number(text@) {
                    lemma_decimal_value_monotone(digits, i - start + 1, digits.len() as int);
                    assert(digits.take(digits.len() as int) == digits);
                    assert(decimal_value(digits) > limit);
                }
            }
            return GainInput::Refused;
        }
        value = next;
        i += 1;
    }
    assert(digits.take(i - start) == digits);
    if value == 0 {
        GainInput::Refused
    } else if negative {
        GainInput::Negative
    } else {
        GainInput::Gain(value as u32)
    }
}

/// Where the pack is saved.
#[derive(Clone, Copy, Debug, PartialEq, Eq, Structural)]
pub enum LocationChoice {
    /// In the directory that the program runs in.
    Current,
    /// Where the user says, in a file dialogue.
    Choose,
}

/// The lines of the menu of places to save to.
pub open spec fn offered_locations() -> Seq<MenuLine> {
    seq![
        ("current"@, "current directory"@, ""@),
        ("choose"@, "let me choose"@, "will open a file dialog"@),
    ]
}

/// The menu of places to save to.
pub fn location_menu() -> (items: Vec<MenuItem>)
    ensures
        menu_lines(items@) == offered_locations(),
{
    let mut items: Vec<MenuItem> = Vec::new();
    items.push(menu_item("current", "current directory", ""));
    items.push(menu_item("choose", "let me choose", "will open a file dialog"));
    assert(menu_lines(items@) == offered_locations());
    items
}

/// What follows from the answer `selection` to the menu of places: `None`
/// for an answer that the menu does not offer.
pub fn choose_location(selection: &str) -> (choice: Option<LocationChoice>)
    ensures
        choice == if selection@ == "current"@ {
            Some(LocationChoice::Current)
        } else if selection@ == "choose"@ {
            Some(LocationChoice::Choose)
        } else {
            None
        },
{
    if same_text(selection, "current") {
        Some(LocationChoice::Current)
    } else if same_text(selection, "choose") {
        Some(LocationChoice::Choose)
    } else {
        None
    }
}

} // verus!
