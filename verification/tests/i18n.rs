use moosereader::i18n::{fill, parse_locale, tr, Language, Text};
use moosereader::width::width;

const ALL: [Language; 10] = [
    Language::Auto,
    Language::English,
    Language::SimplifiedChinese,
    Language::TraditionalChinese,
    Language::Japanese,
    Language::Korean,
    Language::Russian,
    Language::Spanish,
    Language::French,
    Language::German,
];

#[test]
fn locales_map_to_languages() {
    assert_eq!(parse_locale("zh_CN.UTF-8"), Language::SimplifiedChinese);
    assert_eq!(parse_locale("zh_TW.UTF-8"), Language::TraditionalChinese);
    assert_eq!(parse_locale("zh-Hant"), Language::TraditionalChinese);
    assert_eq!(parse_locale("zh_Hans_CN"), Language::SimplifiedChinese);
    assert_eq!(parse_locale("ja_JP.UTF-8"), Language::Japanese);
    assert_eq!(parse_locale("de_DE@euro"), Language::German);
    assert_eq!(parse_locale("C.UTF-8"), Language::English);
    assert_eq!(parse_locale(""), Language::English);
}

#[test]
fn every_translation_fits_its_box() {
    let labels = [
        Text::MaxWidth,
        Text::MarginLeft,
        Text::MarginRight,
        Text::ScrollLines,
        Text::Theme,
        Text::Language,
        Text::Images,
        Text::PlainStyles,
        Text::ShowFooter,
        Text::DimFooter,
        Text::FooterAlign,
        Text::ChapterTitle,
        Text::ProgressMode,
        Text::ProgressBar,
        Text::BarLength,
        Text::ProgressPercent,
        Text::ChapterLoc,
    ];
    let values = [
        Text::On,
        Text::Off,
        Text::Left,
        Text::Center,
        Text::Right,
        Text::Chapter,
        Text::Overall,
        Text::Auto,
        Text::TerminalTheme,
        Text::Blocks,
    ];
    for language in ALL {
        // Settings rows give labels 15 columns and values 10
        for label in labels {
            assert!(width(tr(language, label)) <= 15, "{:?}: {}", language, tr(language, label));
        }
        for value in values {
            assert!(width(tr(language, value)) <= 10, "{:?}: {}", language, tr(language, value));
        }
        assert!(width(language.name(language)) <= 10);
        // Box titles and section headers must fit the narrowest boxes
        assert!(width(tr(language, Text::TableOfContents)) + 2 <= 28);
        assert!(width(tr(language, Text::Settings)) + 2 <= 34);
        for header in [Text::MainUi, Text::Footer] {
            assert!(width(tr(language, header)) + 8 <= 34);
        }
    }
}

#[test]
fn auto_follows_the_system_locale_and_others_stay() {
    assert_eq!(moosereader::i18n::set(Language::Auto, "ja_JP.UTF-8"), Language::Japanese);
    assert_eq!(moosereader::i18n::set(Language::Auto, ""), Language::English);
    assert_eq!(moosereader::i18n::set(Language::French, "ja_JP.UTF-8"), Language::French);
}

#[test]
fn languages_cycle_back_to_where_they_started() {
    for language in ALL {
        assert_eq!(language.next().prev(), language);
        assert_eq!(language.prev().next(), language);
        let mut l = language;
        for _ in 0..10 {
            l = l.next();
        }
        assert_eq!(l, language);
    }
    assert_eq!(Language::German.next(), Language::Auto);
}

#[test]
fn messages_are_translated() {
    assert_eq!(tr(Language::English, Text::Settings), "Settings");
    assert_eq!(tr(Language::Auto, Text::Settings), "Settings");
    assert_ne!(tr(Language::German, Text::Settings), "Settings");
    assert!(tr(Language::Japanese, Text::CannotOpen).contains("{path}"));
}

#[test]
fn placeholders_are_filled() {
    let japanese = fill(tr(Language::Japanese, Text::CannotOpen), "missing.epub", "gone");
    assert!(japanese.contains("missing.epub を開けません"), "{japanese}");
    let german = fill(tr(Language::German, Text::CannotOpen), "missing.epub", "weg");
    assert!(german.contains("missing.epub kann nicht geöffnet werden"), "{german}");
    assert_eq!(
        fill(tr(Language::English, Text::CannotOpen), "missing.epub", "No such file"),
        "cannot open missing.epub: No such file"
    );
    assert_eq!(fill("{path}{path} {error}", "a", "{path}"), "aa {path}");
    assert_eq!(fill("{pat} {", "a", "b"), "{pat} {");
    assert!(tr(Language::TraditionalChinese, Text::Usage).starts_with("用法："));
}
