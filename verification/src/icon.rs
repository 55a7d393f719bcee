//! Glyph and color lookup for discovered applications: an exact-name
//! table first, then the first matching category, then an empty default.

use vstd::prelude::*;

use vstd::string::StringExecFns;

verus! {

/// The palette the list can color a glyph with.
#[derive(Clone, Copy, Debug, PartialEq, Eq, Structural)]
pub enum IconColor {
    Black,
    Blue,
    Cyan,
    DarkGray,
    Gray,
    Green,
    LightBlue,
    LightCyan,
    LightGreen,
    LightMagenta,
    LightRed,
    LightYellow,
    Magenta,
    Red,
    White,
    Yellow,
}

/// The mathematical value of an icon.
pub struct IconV {
    pub symbol: Seq<char>,
    pub color: IconColor,
}

/// A glyph with its color, shown beside an application's name.
#[derive(Debug)]
pub struct Icon {
    pub symbol: String,
    pub color: IconColor,
}

impl View for Icon {
    type V = IconV;

    open spec fn view(&self) -> IconV {
        IconV { symbol: self.symbol@, color: self.color }
    }
}

impl Clone for Icon {
    fn clone(&self) -> (r: Self)
        ensures
            r == *self,
    {
        Icon { symbol: self.symbol.clone(), color: self.color }
    }
}

impl Icon {
    pub fn new(symbol: String, color: IconColor) -> (r: Self)
        ensures
            r@ == (IconV { symbol: symbol@, color }),
    {
        Icon { symbol, color }
    }

    /// The default icon: a plain space, white.
    pub fn empty() -> (r: Self)
        ensures
            r@ == empty_icon(),
    {
        Icon::new(String::from_str(" "), IconColor::White)
    }
}

/// The default icon's value.
pub open spec fn empty_icon() -> IconV {
    IconV { symbol: " "@, color: IconColor::White }
}

/// The exact-name table.
pub open spec fn app_icon_spec(name: Seq<char>) -> Option<IconV> {
    if name == "Bluetooth"@ {
        Some(IconV { symbol: "󰂯"@, color: IconColor::Blue })
    } else if name == "Blender"@ {
        Some(IconV { symbol: "󰂫"@, color: IconColor::Yellow })
    } else if name == "Chrome"@ {
        Some(IconV { symbol: ""@, color: IconColor::Red })
    } else if name == "Chromium"@ {
        Some(IconV { symbol: ""@, color: IconColor::Cyan })
    } else if name == "Code"@ {
        Some(IconV { symbol: "󰨞"@, color: IconColor::Blue })
    } else if name == "Discord"@ {
        Some(IconV { symbol: ""@, color: IconColor::LightBlue })
    } else if name == "Edge"@ {
        Some(IconV { symbol: "󰇩"@, color: IconColor::Cyan })
    } else if name == "Filezilla"@ {
        Some(IconV { symbol: ""@, color: IconColor::Red })
    } else if name == "Firefox"@ {
        Some(IconV { symbol: "󰈹"@, color: IconColor::LightRed })
    } else if name == "GNU Image Manipulation Program"@ {
        Some(IconV { symbol: ""@, color: IconColor::Gray })
    } else if name == "Godot Engine"@ {
        Some(IconV { symbol: ""@, color: IconColor::Blue })
    } else if name == "Inkscape"@ {
        Some(IconV { symbol: ""@, color: IconColor::Black })
    } else if name == "LibreOffice"@ {
        Some(IconV { symbol: ""@, color: IconColor::Gray })
    } else if name == "LibreOffice Base"@ {
        Some(IconV { symbol: ""@, color: IconColor::Magenta })
    } else if name == "LibreOffice Calc"@ {
        Some(IconV { symbol: ""@, color: IconColor::Green })
    } else if name == "LibreOffice Draw"@ {
        Some(IconV { symbol: ""@, color: IconColor::Yellow })
    } else if name == "LibreOffice Impress"@ {
        Some(IconV { symbol: ""@, color: IconColor::LightRed })
    } else if name == "LibreOffice Math"@ {
        Some(IconV { symbol: ""@, color: IconColor::Red })
    } else if name == "LibreOffice Writer"@ {
        Some(IconV { symbol: ""@, color: IconColor::Blue })
    } else if name == "Neovim"@ {
        Some(IconV { symbol: ""@, color: IconColor::Green })
    } else if name == "Notion"@ {
        Some(IconV { symbol: ""@, color: IconColor::White })
    } else if name == "Opera"@ {
        Some(IconV { symbol: ""@, color: IconColor::Red })
    } else if name == "Postman"@ {
        Some(IconV { symbol: ""@, color: IconColor::LightRed })
    } else if name == "Spotify"@ {
        Some(IconV { symbol: ""@, color: IconColor::Green })
    } else if name == "Spotify (Launcher)"@ {
        Some(IconV { symbol: ""@, color: IconColor::Green })
    } else if name == "Steam"@ {
        Some(IconV { symbol: "󰓓"@, color: IconColor::Cyan })
    } else if name == "Thunderbird"@ {
        Some(IconV { symbol: ""@, color: IconColor::Blue })
    } else if name == "Unity"@ {
        Some(IconV { symbol: ""@, color: IconColor::Gray })
    } else if name == "Vim"@ {
        Some(IconV { symbol: ""@, color: IconColor::Green })
    } else if name == "VLC"@ {
        Some(IconV { symbol: "󰕼"@, color: IconColor::LightRed })
    } else {
        None
    }
}

/// The category table.
pub open spec fn category_icon_spec(name: Seq<char>) -> Option<IconV> {
    if name == "AudioVideo"@ {
        Some(IconV { symbol: ""@, color: IconColor::LightGreen })
    } else if name == "Audio"@ {
        Some(IconV { symbol: ""@, color: IconColor::LightBlue })
    } else if name == "Video"@ {
        Some(IconV { symbol: "󰕧"@, color: IconColor::LightCyan })
    } else if name == "Development"@ {
        Some(IconV { symbol: "󰅩"@, color: IconColor::LightYellow })
    } else if name == "Education"@ {
        Some(IconV { symbol: ""@, color: IconColor::Gray })
    } else if name == "Game"@ {
        Some(IconV { symbol: "󱎓"@, color: IconColor::LightMagenta })
    } else if name == "Graphics"@ {
        Some(IconV { symbol: "󰟽"@, color: IconColor::Magenta })
    } else if name == "Network"@ {
        Some(IconV { symbol: "󰛳"@, color: IconColor::Blue })
    } else if name == "Office"@ {
        Some(IconV { symbol: "󰈙"@, color: IconColor::White })
    } else if name == "Settings"@ {
        Some(IconV { symbol: ""@, color: IconColor::Yellow })
    } else if name == "System"@ {
        Some(IconV { symbol: "󰒓"@, color: IconColor::DarkGray })
    } else if name == "Utility"@ {
        Some(IconV { symbol: "󱌢"@, color: IconColor::Gray })
    } else {
        None
    }
}

/// The icon of the first category with a table entry.
pub open spec fn first_category_icon(cats: Seq<Seq<char>>) -> Option<IconV>
    decreases cats.len(),
{
    if cats.len() == 0 {
        None
    } else if category_icon_spec(cats[0]) is Some {
        category_icon_spec(cats[0])
    } else {
        first_category_icon(cats.skip(1))
    }
}

/// What icon a discovered application gets: its exact name first, else
/// its first category with a table entry, else the empty default.
pub open spec fn resolve_icon_spec(name: Seq<char>, cats: Seq<Seq<char>>) -> IconV {
    match app_icon_spec(name) {
        Some(icon) => icon,
        None => match first_category_icon(cats) {
            Some(icon) => icon,
            None => empty_icon(),
        },
    }
}

/// Looks a name up in the exact-name table.
pub fn application_icon(name: &str) -> (r: Option<Icon>)
    ensures
        match r {
            Some(icon) => app_icon_spec(name@) == Some(icon@),
            None => app_icon_spec(name@) is None,
        },
{
    if crate::strutil::str_eq(name, "Bluetooth") {
        Some(Icon::new(String::from_str("󰂯"), IconColor::Blue))
    } else if crate::strutil::str_eq(name, "Blender") {
        Some(Icon::new(String::from_str("󰂫"), IconColor::Yellow))
    } else if crate::strutil::str_eq(name, "Chrome") {
        Some(Icon::new(String::from_str(""), IconColor::Red))
    } else if crate::strutil::str_eq(name, "Chromium") {
        Some(Icon::new(String::from_str(""), IconColor::Cyan))
    } else if crate::strutil::str_eq(name, "Code") {
        Some(Icon::new(String::from_str("󰨞"), IconColor::Blue))
    } else if crate::strutil::str_eq(name, "Discord") {
        Some(Icon::new(String::from_str(""), IconColor::LightBlue))
    } else if crate::strutil::str_eq(name, "Edge") {
        Some(Icon::new(String::from_str("󰇩"), IconColor::Cyan))
    } else if crate::strutil::str_eq(name, "Filezilla") {
        Some(Icon::new(String::from_str(""), IconColor::Red))
    } else if crate::strutil::str_eq(name, "Firefox") {
        Some(Icon::new(String::from_str("󰈹"), IconColor::LightRed))
    } else if crate::strutil::str_eq(name, "GNU Image Manipulation Program") {
        Some(Icon::new(String::from_str(""), IconColor::Gray))
    } else if crate::strutil::str_eq(name, "Godot Engine") {
        Some(Icon::new(String::from_str(""), IconColor::Blue))
    } else if crate::strutil::str_eq(name, "Inkscape") {
        Some(Icon::new(String::from_str(""), IconColor::Black))
    } else if crate::strutil::str_eq(name, "LibreOffice") {
        Some(Icon::new(String::from_str(""), IconColor::Gray))
    } else if crate::strutil::str_eq(name, "LibreOffice Base") {
        Some(Icon::new(String::from_str(""), IconColor::Magenta))
    } else if crate::strutil::str_eq(name, "LibreOffice Calc") {
        Some(Icon::new(String::from_str(""), IconColor::Green))
    } else if crate::strutil::str_eq(name, "LibreOffice Draw") {
        Some(Icon::new(String::from_str(""), IconColor::Yellow))
    } else if crate::strutil::str_eq(name, "LibreOffice Impress") {
        Some(Icon::new(String::from_str(""), IconColor::LightRed))
    } else if crate::strutil::str_eq(name, "LibreOffice Math") {
        Some(Icon::new(String::from_str(""), IconColor::Red))
    } else if crate::strutil::str_eq(name, "LibreOffice Writer") {
        Some(Icon::new(String::from_str(""), IconColor::Blue))
    } else if crate::strutil::str_eq(name, "Neovim") {
        Some(Icon::new(String::from_str(""), IconColor::Green))
    } else if crate::strutil::str_eq(name, "Notion") {
        Some(Icon::new(String::from_str(""), IconColor::White))
    } else if crate::strutil::str_eq(name, "Opera") {
        Some(Icon::new(String::from_str(""), IconColor::Red))
    } else if crate::strutil::str_eq(name, "Postman") {
        Some(Icon::new(String::from_str(""), IconColor::LightRed))
    } else if crate::strutil::str_eq(name, "Spotify") {
        Some(Icon::new(String::from_str(""), IconColor::Green))
    } else if crate::strutil::str_eq(name, "Spotify (Launcher)") {
        Some(Icon::new(String::from_str(""), IconColor::Green))
    } else if crate::strutil::str_eq(name, "Steam") {
        Some(Icon::new(String::from_str("󰓓"), IconColor::Cyan))
    } else if crate::strutil::str_eq(name, "Thunderbird") {
        Some(Icon::new(String::from_str(""), IconColor::Blue))
    } else if crate::strutil::str_eq(name, "Unity") {
        Some(Icon::new(String::from_str(""), IconColor::Gray))
    } else if crate::strutil::str_eq(name, "Vim") {
        Some(Icon::new(String::from_str(""), IconColor::Green))
    } else if crate::strutil::str_eq(name, "VLC") {
        Some(Icon::new(String::from_str("󰕼"), IconColor::LightRed))
    } else {
        None
    }
}

/// Looks a category up in the category table.
pub fn category_icon(name: &str) -> (r: Option<Icon>)
    ensures
        match r {
            Some(icon) => category_icon_spec(name@) == Some(icon@),
            None => category_icon_spec(name@) is None,
        },
{
    if crate::strutil::str_eq(name, "AudioVideo") {
        Some(Icon::new(String::from_str(""), IconColor::LightGreen))
    } else if crate::strutil::str_eq(name, "Audio") {
        Some(Icon::new(String::from_str(""), IconColor::LightBlue))
    } else if crate::strutil::str_eq(name, "Video") {
        Some(Icon::new(String::from_str("󰕧"), IconColor::LightCyan))
    } else if crate::strutil::str_eq(name, "Development") {
        Some(Icon::new(String::from_str("󰅩"), IconColor::LightYellow))
    } else if crate::strutil::str_eq(name, "Education") {
        Some(Icon::new(String::from_str(""), IconColor::Gray))
    } else if crate::strutil::str_eq(name, "Game") {
        Some(Icon::new(String::from_str("󱎓"), IconColor::LightMagenta))
    } else if crate::strutil::str_eq(name, "Graphics") {
        Some(Icon::new(String::from_str("󰟽"), IconColor::Magenta))
    } else if crate::strutil::str_eq(name, "Network") {
        Some(Icon::new(String::from_str("󰛳"), IconColor::Blue))
    } else if crate::strutil::str_eq(name, "Office") {
        Some(Icon::new(String::from_str("󰈙"), IconColor::White))
    } else if crate::strutil::str_eq(name, "Settings") {
        Some(Icon::new(String::from_str(""), IconColor::Yellow))
    } else if crate::strutil::str_eq(name, "System") {
        Some(Icon::new(String::from_str("󰒓"), IconColor::DarkGray))
    } else if crate::strutil::str_eq(name, "Utility") {
        Some(Icon::new(String::from_str("󱌢"), IconColor::Gray))
    } else {
        None
    }
}

/// Resolves the icon for a name and its categories.
pub fn resolve_icon(name: &str, categories: &Vec<String>) -> (r: Icon)
    ensures
        r@ == resolve_icon_spec(name@, categories@.map_values(|c: String| c@)),
{
    let ghost cats = categories@.map_values(|c: String| c@);
    if let Some(icon) = application_icon(name) {
        return icon;
    }
    let n = categories.len();
    let mut i: usize = 0;
    proof {
        assert(cats.skip(0) =~= cats);
    }
    while i < n
        invariant
            cats == categories@.map_values(|c: String| c@),
            n == categories@.len(),
            i <= n,
            app_icon_spec(name@) is None,
            first_category_icon(cats) == first_category_icon(cats.skip(i as int)),
        decreases n - i,
    {
        proof {
            assert(cats.skip(i as int)[0] == cats[i as int]);
            assert(cats[i as int] == categories@[i as int]@);
        }
        if let Some(icon) = category_icon(categories[i].as_str()) {
            return icon;
        }
        proof {
            assert(cats.skip(i as int).skip(1) =~= cats.skip(i + 1));
        }
        i += 1;
    }
    assert(cats.skip(i as int).len() == 0);
    Icon::empty()
}

} // verus!
