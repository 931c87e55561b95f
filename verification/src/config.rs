//! Editor settings and their defaults.
use vstd::prelude::*;

verus! {

/// All settings.
#[derive(Debug, Clone)]
pub struct Config {
    pub editor: EditorConfig,
    pub ui: UiConfig,
    pub spell: SpellConfig,
}

/// Settings of the editing area.
#[derive(Debug, Clone)]
pub struct EditorConfig {
    pub word_wrap: bool,
    pub wrap_column: u16,
    pub tab_width: u8,
    pub show_line_numbers: bool,
    pub show_ruler: bool,
    pub insert_mode: bool,
}

/// Settings of the screen.
#[derive(Debug, Clone)]
pub struct UiConfig {
    pub show_help_menu: bool,
    pub color_scheme: String,
    pub wordstar_diamond: bool,
}

/// Where the dictionaries are read from (empty: the built-in ones).
#[derive(Debug, Clone)]
pub struct SpellConfig {
    pub dictionary_path: String,
    pub user_dictionary_path: String,
}

impl Default for Config {
    /// Word wrap at column 80, tabs of 4, ruler and help shown, insert
    /// mode, no line numbers, the classic colours, no WordStar cursor
    /// diamond, and the built-in dictionaries.
    fn default() -> (c: Self)
        ensures
            c.editor.word_wrap,
            c.editor.wrap_column == 80,
            c.editor.tab_width == 4,
            !c.editor.show_line_numbers,
            c.editor.show_ruler,
            c.editor.insert_mode,
            c.ui.show_help_menu,
            c.ui.color_scheme@ == "classic"@,
            !c.ui.wordstar_diamond,
            c.spell.dictionary_path@.len() == 0,
            c.spell.user_dictionary_path@.len() == 0,
    {
        Config {
            editor: EditorConfig {
                word_wrap: true,
                wrap_column: 80,
                tab_width: 4,
                show_line_numbers: false,
                show_ruler: true,
                insert_mode: true,
            },
            ui: UiConfig {
                show_help_menu: true,
                color_scheme: String::from_str("classic"),
                wordstar_diamond: false,
            },
            spell: SpellConfig { dictionary_path: String::new(), user_dictionary_path: String::new() },
        }
    }
}

} // verus!
