//! Interface text in several languages. The strings are fixed labels without
//! plurals or grammar, so a static table per language is enough.

use vstd::prelude::*;
use crate::text::{chars_of, eq_str, is_ascii_text, lemma_split_nonempty, lemma_split_without_sep, lower, lower_all, lowercase, lowercased, replace_all, replace_all_of, split, split_at_char, string_of};

verus! {

#[derive(PartialEq, Eq, Structural, Clone, Copy, Debug)]
pub enum Language {
    Auto,
    English,
    SimplifiedChinese,
    TraditionalChinese,
    Japanese,
    Korean,
    Russian,
    Spanish,
    French,
    German,
}

/// A language's place in the order the settings menu cycles through.
pub open spec fn language_index(l: Language) -> int {
    match l {
        Language::Auto => 0,
        Language::English => 1,
        Language::SimplifiedChinese => 2,
        Language::TraditionalChinese => 3,
        Language::Japanese => 4,
        Language::Korean => 5,
        Language::Russian => 6,
        Language::Spanish => 7,
        Language::French => 8,
        Language::German => 9,
    }
}

/// The language at a place in the menu order.
pub open spec fn language_at(i: int) -> Language {
    if i == 0 {
        Language::Auto
    } else if i == 1 {
        Language::English
    } else if i == 2 {
        Language::SimplifiedChinese
    } else if i == 3 {
        Language::TraditionalChinese
    } else if i == 4 {
        Language::Japanese
    } else if i == 5 {
        Language::Korean
    } else if i == 6 {
        Language::Russian
    } else if i == 7 {
        Language::Spanish
    } else if i == 8 {
        Language::French
    } else {
        Language::German
    }
}

/// The number of languages in the menu.
pub open spec fn language_count() -> int {
    10
}

/// The next language in the menu, wrapping around.
pub open spec fn language_after(l: Language) -> Language {
    language_at((language_index(l) + 1) % language_count())
}

/// The previous language in the menu, wrapping around.
pub open spec fn language_before(l: Language) -> Language {
    language_at((language_index(l) + language_count() - 1) % language_count())
}

impl Language {
    pub fn next(self) -> (r: Self)
        ensures
            r == language_after(self),
    {
        let i = self.index();
        Self::at((i + 1) % 10)
    }

    pub fn prev(self) -> (r: Self)
        ensures
            r == language_before(self),
    {
        let i = self.index();
        Self::at((i + 10 - 1) % 10)
    }

    fn index(self) -> (i: usize)
        ensures
            i == language_index(self),
    {
        match self {
            Language::Auto => 0,
            Language::English => 1,
            Language::SimplifiedChinese => 2,
            Language::TraditionalChinese => 3,
            Language::Japanese => 4,
            Language::Korean => 5,
            Language::Russian => 6,
            Language::Spanish => 7,
            Language::French => 8,
            Language::German => 9,
        }
    }

    fn at(i: usize) -> (l: Self)
        requires
            i < 10,
        ensures
            l == language_at(i as int),
    {
        if i == 0 {
            Language::Auto
        } else if i == 1 {
            Language::English
        } else if i == 2 {
            Language::SimplifiedChinese
        } else if i == 3 {
            Language::TraditionalChinese
        } else if i == 4 {
            Language::Japanese
        } else if i == 5 {
            Language::Korean
        } else if i == 6 {
            Language::Russian
        } else if i == 7 {
            Language::Spanish
        } else if i == 8 {
            Language::French
        } else {
            Language::German
        }
    }

    /// The language's name in itself, as language pickers show it; Auto is
    /// named in the interface language `ui`.
    pub fn name(self, ui: Language) -> (r: &'static str)
        ensures
            r@ == language_name(self, ui),
    {
        match self {
            Language::Auto => tr(ui, Text::Auto),
            Language::English => "English",
            Language::SimplifiedChinese => "简体中文",
            Language::TraditionalChinese => "繁體中文",
            Language::Japanese => "日本語",
            Language::Korean => "한국어",
            Language::Russian => "Русский",
            Language::Spanish => "Español",
            Language::French => "Français",
            Language::German => "Deutsch",
        }
    }
}

pub open spec fn language_name(l: Language, ui: Language) -> Seq<char> {
    match l {
        Language::Auto => translation(ui, Text::Auto),
        Language::English => "English"@,
        Language::SimplifiedChinese => "简体中文"@,
        Language::TraditionalChinese => "繁體中文"@,
        Language::Japanese => "日本語"@,
        Language::Korean => "한국어"@,
        Language::Russian => "Русский"@,
        Language::Spanish => "Español"@,
        Language::French => "Français"@,
        Language::German => "Deutsch"@,
    }
}

/// Going forward then back, or back then forward, returns to the language
/// one started from.
pub proof fn law_language_cycle(l: Language)
    ensures
        language_before(language_after(l)) == l,
        language_after(language_before(l)) == l,
{
}

#[derive(Clone, Copy, PartialEq, Eq, Structural, Debug)]
pub enum Text {
    TableOfContents,
    Settings,
    MainUi,
    Footer,
    MaxWidth,
    MarginLeft,
    MarginRight,
    ScrollLines,
    Theme,
    Language,
    Images,
    Blocks,
    PlainStyles,
    ShowFooter,
    DimFooter,
    FooterAlign,
    ChapterTitle,
    ProgressMode,
    ProgressBar,
    BarLength,
    ProgressPercent,
    ChapterLoc,
    On,
    Off,
    Left,
    Center,
    Right,
    Chapter,
    Overall,
    Auto,
    TerminalTheme,
    Image,
    Section,
    Usage,
    CannotOpen,
    NotZip,
    NotEpub,
    NoChapters,
    TerminalError,
}

pub open spec fn english_text(text: Text) -> Seq<char> {
    match text {
        Text::TableOfContents => "Table of Contents"@,
        Text::Settings => "Settings"@,
        Text::MainUi => "Main UI"@,
        Text::Footer => "Footer"@,
        Text::MaxWidth => "Max Width"@,
        Text::MarginLeft => "Margin Left"@,
        Text::MarginRight => "Margin Right"@,
        Text::ScrollLines => "Scroll Lines"@,
        Text::Theme => "Theme"@,
        Text::Language => "Language"@,
        Text::Images => "Images"@,
        Text::Blocks => "Blocks"@,
        Text::PlainStyles => "Plain Styles"@,
        Text::ShowFooter => "Show Footer"@,
        Text::DimFooter => "Dim Footer"@,
        Text::FooterAlign => "Footer Align"@,
        Text::ChapterTitle => "Chapter Title"@,
        Text::ProgressMode => "Progress Mode"@,
        Text::ProgressBar => "Progress Bar"@,
        Text::BarLength => "Bar Length"@,
        Text::ProgressPercent => "Progress %"@,
        Text::ChapterLoc => "Chapter Loc"@,
        Text::On => "On"@,
        Text::Off => "Off"@,
        Text::Left => "Left"@,
        Text::Center => "Center"@,
        Text::Right => "Right"@,
        Text::Chapter => "Chapter"@,
        Text::Overall => "Overall"@,
        Text::Auto => "Auto"@,
        Text::TerminalTheme => "Terminal"@,
        Text::Image => "Image"@,
        Text::Section => "Section"@,
        Text::Usage => "Usage: cargo run -- <path_to_epub>"@,
        Text::CannotOpen => "cannot open {path}: {error}"@,
        Text::NotZip => "{path} is not an EPUB (not a zip archive)"@,
        Text::NotEpub => "{path} is not a readable EPUB (no package or spine)"@,
        Text::NoChapters => "no chapters found in {path}"@,
        Text::TerminalError => "terminal error: {error}"@,
    }
}

pub open spec fn simplified_chinese_text(text: Text) -> Seq<char> {
    match text {
        Text::TableOfContents => "目录"@,
        Text::Settings => "设置"@,
        Text::MainUi => "主界面"@,
        Text::Footer => "页脚"@,
        Text::MaxWidth => "最大宽度"@,
        Text::MarginLeft => "左边距"@,
        Text::MarginRight => "右边距"@,
        Text::ScrollLines => "滚动行数"@,
        Text::Theme => "主题"@,
        Text::Language => "语言"@,
        Text::Images => "图片"@,
        Text::Blocks => "字符块"@,
        Text::PlainStyles => "简洁样式"@,
        Text::ShowFooter => "显示页脚"@,
        Text::DimFooter => "页脚变暗"@,
        Text::FooterAlign => "页脚对齐"@,
        Text::ChapterTitle => "章节标题"@,
        Text::ProgressMode => "进度模式"@,
        Text::ProgressBar => "进度条"@,
        Text::BarLength => "进度条长度"@,
        Text::ProgressPercent => "进度百分比"@,
        Text::ChapterLoc => "章节位置"@,
        Text::On => "开"@,
        Text::Off => "关"@,
        Text::Left => "左"@,
        Text::Center => "居中"@,
        Text::Right => "右"@,
        Text::Chapter => "本章"@,
        Text::Overall => "全书"@,
        Text::Auto => "自动"@,
        Text::TerminalTheme => "终端"@,
        Text::Image => "图片"@,
        Text::Section => "章节"@,
        Text::Usage => "用法：cargo run -- <EPUB 文件路径>"@,
        Text::CannotOpen => "无法打开 {path}：{error}"@,
        Text::NotZip => "{path} 不是 EPUB 文件（不是 zip 压缩包）"@,
        Text::NotEpub => "{path} 不是可读取的 EPUB（缺少 package 或 spine）"@,
        Text::NoChapters => "{path} 中没有找到章节"@,
        Text::TerminalError => "终端错误：{error}"@,
    }
}

pub open spec fn traditional_chinese_text(text: Text) -> Seq<char> {
    match text {
        Text::TableOfContents => "目錄"@,
        Text::Settings => "設定"@,
        Text::MainUi => "主介面"@,
        Text::Footer => "頁尾"@,
        Text::MaxWidth => "最大寬度"@,
        Text::MarginLeft => "左邊距"@,
        Text::MarginRight => "右邊距"@,
        Text::ScrollLines => "捲動行數"@,
        Text::Theme => "主題"@,
        Text::Language => "語言"@,
        Text::Images => "圖片"@,
        Text::Blocks => "字元區塊"@,
        Text::PlainStyles => "簡潔樣式"@,
        Text::ShowFooter => "顯示頁尾"@,
        Text::DimFooter => "頁尾變暗"@,
        Text::FooterAlign => "頁尾對齊"@,
        Text::ChapterTitle => "章節標題"@,
        Text::ProgressMode => "進度模式"@,
        Text::ProgressBar => "進度列"@,
        Text::BarLength => "進度列長度"@,
        Text::ProgressPercent => "進度百分比"@,
        Text::ChapterLoc => "章節位置"@,
        Text::On => "開"@,
        Text::Off => "關"@,
        Text::Left => "左"@,
        Text::Center => "置中"@,
        Text::Right => "右"@,
        Text::Chapter => "本章"@,
        Text::Overall => "全書"@,
        Text::Auto => "自動"@,
        Text::TerminalTheme => "終端機"@,
        Text::Image => "圖片"@,
        Text::Section => "章節"@,
        Text::Usage => "用法：cargo run -- <EPUB 檔案路徑>"@,
        Text::CannotOpen => "無法開啟 {path}：{error}"@,
        Text::NotZip => "{path} 不是 EPUB 檔案（不是 zip 壓縮檔）"@,
        Text::NotEpub => "{path} 不是可讀取的 EPUB（缺少 package 或 spine）"@,
        Text::NoChapters => "{path} 中找不到章節"@,
        Text::TerminalError => "終端機錯誤：{error}"@,
    }
}

pub open spec fn japanese_text(text: Text) -> Seq<char> {
    match text {
        Text::TableOfContents => "目次"@,
        Text::Settings => "設定"@,
        Text::MainUi => "メイン画面"@,
        Text::Footer => "フッター"@,
        Text::MaxWidth => "最大幅"@,
        Text::MarginLeft => "左余白"@,
        Text::MarginRight => "右余白"@,
        Text::ScrollLines => "スクロール行数"@,
        Text::Theme => "テーマ"@,
        Text::Language => "言語"@,
        Text::Images => "画像"@,
        Text::Blocks => "ブロック"@,
        Text::PlainStyles => "シンプル表示"@,
        Text::ShowFooter => "フッター表示"@,
        Text::DimFooter => "フッターを暗く"@,
        Text::FooterAlign => "フッター配置"@,
        Text::ChapterTitle => "章タイトル"@,
        Text::ProgressMode => "進捗モード"@,
        Text::ProgressBar => "進捗バー"@,
        Text::BarLength => "バーの長さ"@,
        Text::ProgressPercent => "進捗率"@,
        Text::ChapterLoc => "章の位置"@,
        Text::On => "オン"@,
        Text::Off => "オフ"@,
        Text::Left => "左"@,
        Text::Center => "中央"@,
        Text::Right => "右"@,
        Text::Chapter => "章"@,
        Text::Overall => "全体"@,
        Text::Auto => "自動"@,
        Text::TerminalTheme => "ターミナル"@,
        Text::Image => "画像"@,
        Text::Section => "セクション"@,
        Text::Usage => "使い方: cargo run -- <EPUBファイルのパス>"@,
        Text::CannotOpen => "{path} を開けません: {error}"@,
        Text::NotZip => "{path} は EPUB ではありません（zip アーカイブではありません）"@,
        Text::NotEpub => "{path} は読み込めない EPUB です（package または spine がありません）"@,
        Text::NoChapters => "{path} に章が見つかりません"@,
        Text::TerminalError => "ターミナルエラー: {error}"@,
    }
}

pub open spec fn korean_text(text: Text) -> Seq<char> {
    match text {
        Text::TableOfContents => "목차"@,
        Text::Settings => "설정"@,
        Text::MainUi => "기본 화면"@,
        Text::Footer => "바닥글"@,
        Text::MaxWidth => "최대 너비"@,
        Text::MarginLeft => "왼쪽 여백"@,
        Text::MarginRight => "오른쪽 여백"@,
        Text::ScrollLines => "스크롤 줄 수"@,
        Text::Theme => "테마"@,
        Text::Language => "언어"@,
        Text::Images => "이미지"@,
        Text::Blocks => "블록"@,
        Text::PlainStyles => "기본 스타일"@,
        Text::ShowFooter => "바닥글 표시"@,
        Text::DimFooter => "바닥글 흐리게"@,
        Text::FooterAlign => "바닥글 정렬"@,
        Text::ChapterTitle => "장 제목"@,
        Text::ProgressMode => "진행 모드"@,
        Text::ProgressBar => "진행 막대"@,
        Text::BarLength => "막대 길이"@,
        Text::ProgressPercent => "진행률"@,
        Text::ChapterLoc => "장 위치"@,
        Text::On => "켜기"@,
        Text::Off => "끄기"@,
        Text::Left => "왼쪽"@,
        Text::Center => "가운데"@,
        Text::Right => "오른쪽"@,
        Text::Chapter => "장"@,
        Text::Overall => "전체"@,
        Text::Auto => "자동"@,
        Text::TerminalTheme => "터미널"@,
        Text::Image => "이미지"@,
        Text::Section => "섹션"@,
        Text::Usage => "사용법: cargo run -- <EPUB 파일 경로>"@,
        Text::CannotOpen => "{path}을(를) 열 수 없습니다: {error}"@,
        Text::NotZip => "{path}은(는) EPUB이 아닙니다 (zip 파일이 아님)"@,
        Text::NotEpub => "{path}은(는) 읽을 수 없는 EPUB입니다 (package 또는 spine 없음)"@,
        Text::NoChapters => "{path}에서 장을 찾을 수 없습니다"@,
        Text::TerminalError => "터미널 오류: {error}"@,
    }
}

pub open spec fn russian_text(text: Text) -> Seq<char> {
    match text {
        Text::TableOfContents => "Оглавление"@,
        Text::Settings => "Настройки"@,
        Text::MainUi => "Основное"@,
        Text::Footer => "Нижняя строка"@,
        Text::MaxWidth => "Макс. ширина"@,
        Text::MarginLeft => "Отступ слева"@,
        Text::MarginRight => "Отступ справа"@,
        Text::ScrollLines => "Шаг прокрутки"@,
        Text::Theme => "Тема"@,
        Text::Language => "Язык"@,
        Text::Images => "Изображения"@,
        Text::Blocks => "Блоки"@,
        Text::PlainStyles => "Простой стиль"@,
        Text::ShowFooter => "Показывать"@,
        Text::DimFooter => "Приглушить"@,
        Text::FooterAlign => "Выравнивание"@,
        Text::ChapterTitle => "Название главы"@,
        Text::ProgressMode => "Режим прогресса"@,
        Text::ProgressBar => "Шкала прогресса"@,
        Text::BarLength => "Длина шкалы"@,
        Text::ProgressPercent => "Прогресс в %"@,
        Text::ChapterLoc => "Номер главы"@,
        Text::On => "Вкл"@,
        Text::Off => "Выкл"@,
        Text::Left => "Слева"@,
        Text::Center => "По центру"@,
        Text::Right => "Справа"@,
        Text::Chapter => "Глава"@,
        Text::Overall => "Вся книга"@,
        Text::Auto => "Авто"@,
        Text::TerminalTheme => "Терминал"@,
        Text::Image => "Изображение"@,
        Text::Section => "Раздел"@,
        Text::Usage => "Использование: cargo run -- <путь_к_epub>"@,
        Text::CannotOpen => "не удалось открыть {path}: {error}"@,
        Text::NotZip => "{path} не является EPUB (это не zip-архив)"@,
        Text::NotEpub => "{path} — нечитаемый EPUB (нет package или spine)"@,
        Text::NoChapters => "в {path} не найдено глав"@,
        Text::TerminalError => "ошибка терминала: {error}"@,
    }
}

pub open spec fn spanish_text(text: Text) -> Seq<char> {
    match text {
        Text::TableOfContents => "Índice"@,
        Text::Settings => "Ajustes"@,
        Text::MainUi => "Interfaz"@,
        Text::Footer => "Pie de página"@,
        Text::MaxWidth => "Ancho máximo"@,
        Text::MarginLeft => "Margen izq."@,
        Text::MarginRight => "Margen der."@,
        Text::ScrollLines => "Desplazamiento"@,
        Text::Theme => "Tema"@,
        Text::Language => "Idioma"@,
        Text::Images => "Imágenes"@,
        Text::Blocks => "Bloques"@,
        Text::PlainStyles => "Estilo simple"@,
        Text::ShowFooter => "Mostrar pie"@,
        Text::DimFooter => "Atenuar pie"@,
        Text::FooterAlign => "Alinear pie"@,
        Text::ChapterTitle => "Título capítulo"@,
        Text::ProgressMode => "Modo progreso"@,
        Text::ProgressBar => "Barra progreso"@,
        Text::BarLength => "Largo de barra"@,
        Text::ProgressPercent => "Progreso %"@,
        Text::ChapterLoc => "N.º capítulo"@,
        Text::On => "Sí"@,
        Text::Off => "No"@,
        Text::Left => "Izquierda"@,
        Text::Center => "Centro"@,
        Text::Right => "Derecha"@,
        Text::Chapter => "Capítulo"@,
        Text::Overall => "Total"@,
        Text::Auto => "Auto"@,
        Text::TerminalTheme => "Terminal"@,
        Text::Image => "Imagen"@,
        Text::Section => "Sección"@,
        Text::Usage => "Uso: cargo run -- <ruta_al_epub>"@,
        Text::CannotOpen => "no se puede abrir {path}: {error}"@,
        Text::NotZip => "{path} no es un EPUB (no es un archivo zip)"@,
        Text::NotEpub => "{path} no es un EPUB legible (sin package ni spine)"@,
        Text::NoChapters => "no se encontraron capítulos en {path}"@,
        Text::TerminalError => "error de terminal: {error}"@,
    }
}

pub open spec fn french_text(text: Text) -> Seq<char> {
    match text {
        Text::TableOfContents => "Table des matières"@,
        Text::Settings => "Réglages"@,
        Text::MainUi => "Interface"@,
        Text::Footer => "Pied de page"@,
        Text::MaxWidth => "Largeur max"@,
        Text::MarginLeft => "Marge gauche"@,
        Text::MarginRight => "Marge droite"@,
        Text::ScrollLines => "Défilement"@,
        Text::Theme => "Thème"@,
        Text::Language => "Langue"@,
        Text::Images => "Images"@,
        Text::Blocks => "Blocs"@,
        Text::PlainStyles => "Style simple"@,
        Text::ShowFooter => "Afficher pied"@,
        Text::DimFooter => "Pied atténué"@,
        Text::FooterAlign => "Alignement"@,
        Text::ChapterTitle => "Titre chapitre"@,
        Text::ProgressMode => "Mode progrès"@,
        Text::ProgressBar => "Barre progrès"@,
        Text::BarLength => "Long. barre"@,
        Text::ProgressPercent => "Progrès %"@,
        Text::ChapterLoc => "N° chapitre"@,
        Text::On => "Oui"@,
        Text::Off => "Non"@,
        Text::Left => "Gauche"@,
        Text::Center => "Centré"@,
        Text::Right => "Droite"@,
        Text::Chapter => "Chapitre"@,
        Text::Overall => "Livre"@,
        Text::Auto => "Auto"@,
        Text::TerminalTheme => "Terminal"@,
        Text::Image => "Image"@,
        Text::Section => "Section"@,
        Text::Usage => "Utilisation : cargo run -- <chemin_du_epub>"@,
        Text::CannotOpen => "impossible d’ouvrir {path} : {error}"@,
        Text::NotZip => "{path} n’est pas un EPUB (pas une archive zip)"@,
        Text::NotEpub => "{path} n’est pas un EPUB lisible (pas de package ni de spine)"@,
        Text::NoChapters => "aucun chapitre trouvé dans {path}"@,
        Text::TerminalError => "erreur du terminal : {error}"@,
    }
}

pub open spec fn german_text(text: Text) -> Seq<char> {
    match text {
        Text::TableOfContents => "Inhaltsverzeichnis"@,
        Text::Settings => "Einstellungen"@,
        Text::MainUi => "Oberfläche"@,
        Text::Footer => "Fußzeile"@,
        Text::MaxWidth => "Max. Breite"@,
        Text::MarginLeft => "Rand links"@,
        Text::MarginRight => "Rand rechts"@,
        Text::ScrollLines => "Scrollzeilen"@,
        Text::Theme => "Farbschema"@,
        Text::Language => "Sprache"@,
        Text::Images => "Bilder"@,
        Text::Blocks => "Blöcke"@,
        Text::PlainStyles => "Einfacher Stil"@,
        Text::ShowFooter => "Fußzeile zeigen"@,
        Text::DimFooter => "Fußzeile dimmen"@,
        Text::FooterAlign => "Ausrichtung"@,
        Text::ChapterTitle => "Kapiteltitel"@,
        Text::ProgressMode => "Fortschrittsart"@,
        Text::ProgressBar => "Balken zeigen"@,
        Text::BarLength => "Balkenlänge"@,
        Text::ProgressPercent => "Fortschritt %"@,
        Text::ChapterLoc => "Kapitelnummer"@,
        Text::On => "An"@,
        Text::Off => "Aus"@,
        Text::Left => "Links"@,
        Text::Center => "Mitte"@,
        Text::Right => "Rechts"@,
        Text::Chapter => "Kapitel"@,
        Text::Overall => "Buch"@,
        Text::Auto => "Auto"@,
        Text::TerminalTheme => "Terminal"@,
        Text::Image => "Bild"@,
        Text::Section => "Abschnitt"@,
        Text::Usage => "Aufruf: cargo run -- <Pfad_zur_EPUB>"@,
        Text::CannotOpen => "{path} kann nicht geöffnet werden: {error}"@,
        Text::NotZip => "{path} ist kein EPUB (kein Zip-Archiv)"@,
        Text::NotEpub => "{path} ist kein lesbares EPUB (package oder spine fehlt)"@,
        Text::NoChapters => "keine Kapitel in {path} gefunden"@,
        Text::TerminalError => "Terminalfehler: {error}"@,
    }
}

/// The text in a language; Auto, not resolved, reads as English. Messages
/// may hold {path} and {error}.
pub open spec fn translation(language: Language, text: Text) -> Seq<char> {
    match language {
        Language::SimplifiedChinese => simplified_chinese_text(text),
        Language::TraditionalChinese => traditional_chinese_text(text),
        Language::Japanese => japanese_text(text),
        Language::Korean => korean_text(text),
        Language::Russian => russian_text(text),
        Language::Spanish => spanish_text(text),
        Language::French => french_text(text),
        Language::German => german_text(text),
        Language::Auto | Language::English => english_text(text),
    }
}

/// The text in `language`. Messages may hold {path} and {error}.
pub fn tr(language: Language, text: Text) -> (r: &'static str)
    ensures
        r@ == translation(language, text),
{
    match language {
        Language::SimplifiedChinese => simplified_chinese(text),
        Language::TraditionalChinese => traditional_chinese(text),
        Language::Japanese => japanese(text),
        Language::Korean => korean(text),
        Language::Russian => russian(text),
        Language::Spanish => spanish(text),
        Language::French => french(text),
        Language::German => german(text),
        Language::Auto | Language::English => english(text),
    }
}

fn english(text: Text) -> (r: &'static str)
    ensures
        r@ == english_text(text),
{
    match text {
        Text::TableOfContents => "Table of Contents",
        Text::Settings => "Settings",
        Text::MainUi => "Main UI",
        Text::Footer => "Footer",
        Text::MaxWidth => "Max Width",
        Text::MarginLeft => "Margin Left",
        Text::MarginRight => "Margin Right",
        Text::ScrollLines => "Scroll Lines",
        Text::Theme => "Theme",
        Text::Language => "Language",
        Text::Images => "Images",
        Text::Blocks => "Blocks",
        Text::PlainStyles => "Plain Styles",
        Text::ShowFooter => "Show Footer",
        Text::DimFooter => "Dim Footer",
        Text::FooterAlign => "Footer Align",
        Text::ChapterTitle => "Chapter Title",
        Text::ProgressMode => "Progress Mode",
        Text::ProgressBar => "Progress Bar",
        Text::BarLength => "Bar Length",
        Text::ProgressPercent => "Progress %",
        Text::ChapterLoc => "Chapter Loc",
        Text::On => "On",
        Text::Off => "Off",
        Text::Left => "Left",
        Text::Center => "Center",
        Text::Right => "Right",
        Text::Chapter => "Chapter",
        Text::Overall => "Overall",
        Text::Auto => "Auto",
        Text::TerminalTheme => "Terminal",
        Text::Image => "Image",
        Text::Section => "Section",
        Text::Usage => "Usage: cargo run -- <path_to_epub>",
        Text::CannotOpen => "cannot open {path}: {error}",
        Text::NotZip => "{path} is not an EPUB (not a zip archive)",
        Text::NotEpub => "{path} is not a readable EPUB (no package or spine)",
        Text::NoChapters => "no chapters found in {path}",
        Text::TerminalError => "terminal error: {error}",
    }
}

fn simplified_chinese(text: Text) -> (r: &'static str)
    ensures
        r@ == simplified_chinese_text(text),
{
    match text {
        Text::TableOfContents => "目录",
        Text::Settings => "设置",
        Text::MainUi => "主界面",
        Text::Footer => "页脚",
        Text::MaxWidth => "最大宽度",
        Text::MarginLeft => "左边距",
        Text::MarginRight => "右边距",
        Text::ScrollLines => "滚动行数",
        Text::Theme => "主题",
        Text::Language => "语言",
        Text::Images => "图片",
        Text::Blocks => "字符块",
        Text::PlainStyles => "简洁样式",
        Text::ShowFooter => "显示页脚",
        Text::DimFooter => "页脚变暗",
        Text::FooterAlign => "页脚对齐",
        Text::ChapterTitle => "章节标题",
        Text::ProgressMode => "进度模式",
        Text::ProgressBar => "进度条",
        Text::BarLength => "进度条长度",
        Text::ProgressPercent => "进度百分比",
        Text::ChapterLoc => "章节位置",
        Text::On => "开",
        Text::Off => "关",
        Text::Left => "左",
        Text::Center => "居中",
        Text::Right => "右",
        Text::Chapter => "本章",
        Text::Overall => "全书",
        Text::Auto => "自动",
        Text::TerminalTheme => "终端",
        Text::Image => "图片",
        Text::Section => "章节",
        Text::Usage => "用法：cargo run -- <EPUB 文件路径>",
        Text::CannotOpen => "无法打开 {path}：{error}",
        Text::NotZip => "{path} 不是 EPUB 文件（不是 zip 压缩包）",
        Text::NotEpub => "{path} 不是可读取的 EPUB（缺少 package 或 spine）",
        Text::NoChapters => "{path} 中没有找到章节",
        Text::TerminalError => "终端错误：{error}",
    }
}

fn traditional_chinese(text: Text) -> (r: &'static str)
    ensures
        r@ == traditional_chinese_text(text),
{
    match text {
        Text::TableOfContents => "目錄",
        Text::Settings => "設定",
        Text::MainUi => "主介面",
        Text::Footer => "頁尾",
        Text::MaxWidth => "最大寬度",
        Text::MarginLeft => "左邊距",
        Text::MarginRight => "右邊距",
        Text::ScrollLines => "捲動行數",
        Text::Theme => "主題",
        Text::Language => "語言",
        Text::Images => "圖片",
        Text::Blocks => "字元區塊",
        Text::PlainStyles => "簡潔樣式",
        Text::ShowFooter => "顯示頁尾",
        Text::DimFooter => "頁尾變暗",
        Text::FooterAlign => "頁尾對齊",
        Text::ChapterTitle => "章節標題",
        Text::ProgressMode => "進度模式",
        Text::ProgressBar => "進度列",
        Text::BarLength => "進度列長度",
        Text::ProgressPercent => "進度百分比",
        Text::ChapterLoc => "章節位置",
        Text::On => "開",
        Text::Off => "關",
        Text::Left => "左",
        Text::Center => "置中",
        Text::Right => "右",
        Text::Chapter => "本章",
        Text::Overall => "全書",
        Text::Auto => "自動",
        Text::TerminalTheme => "終端機",
        Text::Image => "圖片",
        Text::Section => "章節",
        Text::Usage => "用法：cargo run -- <EPUB 檔案路徑>",
        Text::CannotOpen => "無法開啟 {path}：{error}",
        Text::NotZip => "{path} 不是 EPUB 檔案（不是 zip 壓縮檔）",
        Text::NotEpub => "{path} 不是可讀取的 EPUB（缺少 package 或 spine）",
        Text::NoChapters => "{path} 中找不到章節",
        Text::TerminalError => "終端機錯誤：{error}",
    }
}

fn japanese(text: Text) -> (r: &'static str)
    ensures
        r@ == japanese_text(text),
{
    match text {
        Text::TableOfContents => "目次",
        Text::Settings => "設定",
        Text::MainUi => "メイン画面",
        Text::Footer => "フッター",
        Text::MaxWidth => "最大幅",
        Text::MarginLeft => "左余白",
        Text::MarginRight => "右余白",
        Text::ScrollLines => "スクロール行数",
        Text::Theme => "テーマ",
        Text::Language => "言語",
        Text::Images => "画像",
        Text::Blocks => "ブロック",
        Text::PlainStyles => "シンプル表示",
        Text::ShowFooter => "フッター表示",
        Text::DimFooter => "フッターを暗く",
        Text::FooterAlign => "フッター配置",
        Text::ChapterTitle => "章タイトル",
        Text::ProgressMode => "進捗モード",
        Text::ProgressBar => "進捗バー",
        Text::BarLength => "バーの長さ",
        Text::ProgressPercent => "進捗率",
        Text::ChapterLoc => "章の位置",
        Text::On => "オン",
        Text::Off => "オフ",
        Text::Left => "左",
        Text::Center => "中央",
        Text::Right => "右",
        Text::Chapter => "章",
        Text::Overall => "全体",
        Text::Auto => "自動",
        Text::TerminalTheme => "ターミナル",
        Text::Image => "画像",
        Text::Section => "セクション",
        Text::Usage => "使い方: cargo run -- <EPUBファイルのパス>",
        Text::CannotOpen => "{path} を開けません: {error}",
        Text::NotZip => "{path} は EPUB ではありません（zip アーカイブではありません）",
        Text::NotEpub => "{path} は読み込めない EPUB です（package または spine がありません）",
        Text::NoChapters => "{path} に章が見つかりません",
        Text::TerminalError => "ターミナルエラー: {error}",
    }
}

fn korean(text: Text) -> (r: &'static str)
    ensures
        r@ == korean_text(text),
{
    match text {
        Text::TableOfContents => "목차",
        Text::Settings => "설정",
        Text::MainUi => "기본 화면",
        Text::Footer => "바닥글",
        Text::MaxWidth => "최대 너비",
        Text::MarginLeft => "왼쪽 여백",
        Text::MarginRight => "오른쪽 여백",
        Text::ScrollLines => "스크롤 줄 수",
        Text::Theme => "테마",
        Text::Language => "언어",
        Text::Images => "이미지",
        Text::Blocks => "블록",
        Text::PlainStyles => "기본 스타일",
        Text::ShowFooter => "바닥글 표시",
        Text::DimFooter => "바닥글 흐리게",
        Text::FooterAlign => "바닥글 정렬",
        Text::ChapterTitle => "장 제목",
        Text::ProgressMode => "진행 모드",
        Text::ProgressBar => "진행 막대",
        Text::BarLength => "막대 길이",
        Text::ProgressPercent => "진행률",
        Text::ChapterLoc => "장 위치",
        Text::On => "켜기",
        Text::Off => "끄기",
        Text::Left => "왼쪽",
        Text::Center => "가운데",
        Text::Right => "오른쪽",
        Text::Chapter => "장",
        Text::Overall => "전체",
        Text::Auto => "자동",
        Text::TerminalTheme => "터미널",
        Text::Image => "이미지",
        Text::Section => "섹션",
        Text::Usage => "사용법: cargo run -- <EPUB 파일 경로>",
        Text::CannotOpen => "{path}을(를) 열 수 없습니다: {error}",
        Text::NotZip => "{path}은(는) EPUB이 아닙니다 (zip 파일이 아님)",
        Text::NotEpub => "{path}은(는) 읽을 수 없는 EPUB입니다 (package 또는 spine 없음)",
        Text::NoChapters => "{path}에서 장을 찾을 수 없습니다",
        Text::TerminalError => "터미널 오류: {error}",
    }
}

fn russian(text: Text) -> (r: &'static str)
    ensures
        r@ == russian_text(text),
{
    match text {
        Text::TableOfContents => "Оглавление",
        Text::Settings => "Настройки",
        Text::MainUi => "Основное",
        Text::Footer => "Нижняя строка",
        Text::MaxWidth => "Макс. ширина",
        Text::MarginLeft => "Отступ слева",
        Text::MarginRight => "Отступ справа",
        Text::ScrollLines => "Шаг прокрутки",
        Text::Theme => "Тема",
        Text::Language => "Язык",
        Text::Images => "Изображения",
        Text::Blocks => "Блоки",
        Text::PlainStyles => "Простой стиль",
        Text::ShowFooter => "Показывать",
        Text::DimFooter => "Приглушить",
        Text::FooterAlign => "Выравнивание",
        Text::ChapterTitle => "Название главы",
        Text::ProgressMode => "Режим прогресса",
        Text::ProgressBar => "Шкала прогресса",
        Text::BarLength => "Длина шкалы",
        Text::ProgressPercent => "Прогресс в %",
        Text::ChapterLoc => "Номер главы",
        Text::On => "Вкл",
        Text::Off => "Выкл",
        Text::Left => "Слева",
        Text::Center => "По центру",
        Text::Right => "Справа",
        Text::Chapter => "Глава",
        Text::Overall => "Вся книга",
        Text::Auto => "Авто",
        Text::TerminalTheme => "Терминал",
        Text::Image => "Изображение",
        Text::Section => "Раздел",
        Text::Usage => "Использование: cargo run -- <путь_к_epub>",
        Text::CannotOpen => "не удалось открыть {path}: {error}",
        Text::NotZip => "{path} не является EPUB (это не zip-архив)",
        Text::NotEpub => "{path} — нечитаемый EPUB (нет package или spine)",
        Text::NoChapters => "в {path} не найдено глав",
        Text::TerminalError => "ошибка терминала: {error}",
    }
}

fn spanish(text: Text) -> (r: &'static str)
    ensures
        r@ == spanish_text(text),
{
    match text {
        Text::TableOfContents => "Índice",
        Text::Settings => "Ajustes",
        Text::MainUi => "Interfaz",
        Text::Footer => "Pie de página",
        Text::MaxWidth => "Ancho máximo",
        Text::MarginLeft => "Margen izq.",
        Text::MarginRight => "Margen der.",
        Text::ScrollLines => "Desplazamiento",
        Text::Theme => "Tema",
        Text::Language => "Idioma",
        Text::Images => "Imágenes",
        Text::Blocks => "Bloques",
        Text::PlainStyles => "Estilo simple",
        Text::ShowFooter => "Mostrar pie",
        Text::DimFooter => "Atenuar pie",
        Text::FooterAlign => "Alinear pie",
        Text::ChapterTitle => "Título capítulo",
        Text::ProgressMode => "Modo progreso",
        Text::ProgressBar => "Barra progreso",
        Text::BarLength => "Largo de barra",
        Text::ProgressPercent => "Progreso %",
        Text::ChapterLoc => "N.º capítulo",
        Text::On => "Sí",
        Text::Off => "No",
        Text::Left => "Izquierda",
        Text::Center => "Centro",
        Text::Right => "Derecha",
        Text::Chapter => "Capítulo",
        Text::Overall => "Total",
        Text::Auto => "Auto",
        Text::TerminalTheme => "Terminal",
        Text::Image => "Imagen",
        Text::Section => "Sección",
        Text::Usage => "Uso: cargo run -- <ruta_al_epub>",
        Text::CannotOpen => "no se puede abrir {path}: {error}",
        Text::NotZip => "{path} no es un EPUB (no es un archivo zip)",
        Text::NotEpub => "{path} no es un EPUB legible (sin package ni spine)",
        Text::NoChapters => "no se encontraron capítulos en {path}",
        Text::TerminalError => "error de terminal: {error}",
    }
}

fn french(text: Text) -> (r: &'static str)
    ensures
        r@ == french_text(text),
{
    match text {
        Text::TableOfContents => "Table des matières",
        Text::Settings => "Réglages",
        Text::MainUi => "Interface",
        Text::Footer => "Pied de page",
        Text::MaxWidth => "Largeur max",
        Text::MarginLeft => "Marge gauche",
        Text::MarginRight => "Marge droite",
        Text::ScrollLines => "Défilement",
        Text::Theme => "Thème",
        Text::Language => "Langue",
        Text::Images => "Images",
        Text::Blocks => "Blocs",
        Text::PlainStyles => "Style simple",
        Text::ShowFooter => "Afficher pied",
        Text::DimFooter => "Pied atténué",
        Text::FooterAlign => "Alignement",
        Text::ChapterTitle => "Titre chapitre",
        Text::ProgressMode => "Mode progrès",
        Text::ProgressBar => "Barre progrès",
        Text::BarLength => "Long. barre",
        Text::ProgressPercent => "Progrès %",
        Text::ChapterLoc => "N° chapitre",
        Text::On => "Oui",
        Text::Off => "Non",
        Text::Left => "Gauche",
        Text::Center => "Centré",
        Text::Right => "Droite",
        Text::Chapter => "Chapitre",
        Text::Overall => "Livre",
        Text::Auto => "Auto",
        Text::TerminalTheme => "Terminal",
        Text::Image => "Image",
        Text::Section => "Section",
        Text::Usage => "Utilisation : cargo run -- <chemin_du_epub>",
        Text::CannotOpen => "impossible d’ouvrir {path} : {error}",
        Text::NotZip => "{path} n’est pas un EPUB (pas une archive zip)",
        Text::NotEpub => "{path} n’est pas un EPUB lisible (pas de package ni de spine)",
        Text::NoChapters => "aucun chapitre trouvé dans {path}",
        Text::TerminalError => "erreur du terminal : {error}",
    }
}

fn german(text: Text) -> (r: &'static str)
    ensures
        r@ == german_text(text),
{
    match text {
        Text::TableOfContents => "Inhaltsverzeichnis",
        Text::Settings => "Einstellungen",
        Text::MainUi => "Oberfläche",
        Text::Footer => "Fußzeile",
        Text::MaxWidth => "Max. Breite",
        Text::MarginLeft => "Rand links",
        Text::MarginRight => "Rand rechts",
        Text::ScrollLines => "Scrollzeilen",
        Text::Theme => "Farbschema",
        Text::Language => "Sprache",
        Text::Images => "Bilder",
        Text::Blocks => "Blöcke",
        Text::PlainStyles => "Einfacher Stil",
        Text::ShowFooter => "Fußzeile zeigen",
        Text::DimFooter => "Fußzeile dimmen",
        Text::FooterAlign => "Ausrichtung",
        Text::ChapterTitle => "Kapiteltitel",
        Text::ProgressMode => "Fortschrittsart",
        Text::ProgressBar => "Balken zeigen",
        Text::BarLength => "Balkenlänge",
        Text::ProgressPercent => "Fortschritt %",
        Text::ChapterLoc => "Kapitelnummer",
        Text::On => "An",
        Text::Off => "Aus",
        Text::Left => "Links",
        Text::Center => "Mitte",
        Text::Right => "Rechts",
        Text::Chapter => "Kapitel",
        Text::Overall => "Buch",
        Text::Auto => "Auto",
        Text::TerminalTheme => "Terminal",
        Text::Image => "Bild",
        Text::Section => "Abschnitt",
        Text::Usage => "Aufruf: cargo run -- <Pfad_zur_EPUB>",
        Text::CannotOpen => "{path} kann nicht geöffnet werden: {error}",
        Text::NotZip => "{path} ist kein EPUB (kein Zip-Archiv)",
        Text::NotEpub => "{path} ist kein lesbares EPUB (package oder spine fehlt)",
        Text::NoChapters => "keine Kapitel in {path} gefunden",
        Text::TerminalError => "Terminalfehler: {error}",
    }
}

/// What stands before the first `.` or `@` of a locale name: its language tag.
pub open spec fn locale_tag(locale: Seq<char>) -> Seq<char>
    decreases locale.len(),
{
    if locale.len() == 0 || locale[0] == '.' || locale[0] == '@' {
        Seq::empty()
    } else {
        seq![locale[0]] + locale_tag(locale.drop_first())
    }
}

pub open spec fn dash_to_underscore(c: char) -> char {
    if c == '-' {
        '_'
    } else {
        c
    }
}

/// The interface language a locale name such as "zh_TW.UTF-8" or "zh-Hant"
/// asks for: by its language code, and for Chinese by its region or script.
pub open spec fn locale_language(locale: Seq<char>) -> Language {
    language_of_parts(
        split(lowercase(locale_tag(locale).map_values(|c: char| dash_to_underscore(c))), '_'),
    )
}

/// `locale_language` for an ASCII locale name, where lowering is ASCII's.
pub open spec fn ascii_locale_language(locale: Seq<char>) -> Language {
    language_of_parts(
        split(lower_all(locale_tag(locale).map_values(|c: char| dash_to_underscore(c))), '_'),
    )
}

pub open spec fn language_of_parts(parts: Seq<Seq<char>>) -> Language {
    if parts[0] == "zh"@ && parts.len() > 1 && (parts[1] == "tw"@ || parts[1] == "hk"@
        || parts[1] == "mo"@ || parts[1] == "hant"@) {
        Language::TraditionalChinese
    } else if parts[0] == "zh"@ {
        Language::SimplifiedChinese
    } else if parts[0] == "ja"@ {
        Language::Japanese
    } else if parts[0] == "ko"@ {
        Language::Korean
    } else if parts[0] == "ru"@ {
        Language::Russian
    } else if parts[0] == "es"@ {
        Language::Spanish
    } else if parts[0] == "fr"@ {
        Language::French
    } else if parts[0] == "de"@ {
        Language::German
    } else {
        Language::English
    }
}

/// Reads a locale name such as "zh_TW.UTF-8" or "zh-Hant".
pub fn parse_locale(locale: &str) -> (r: Language)
    ensures
        r == locale_language(locale@),
        is_ascii_text(locale@) ==> r == ascii_locale_language(locale@),
{
    let v = chars_of(locale);
    let mut n: usize = 0;
    while n < v.len() && v[n] != '.' && v[n] != '@'
        invariant
            n <= v.len(),
            forall|k: int| 0 <= k < n ==> v@[k] != '.' && v@[k] != '@',
        decreases v.len() - n,
    {
        n += 1;
    }
    let mut tag: Vec<char> = Vec::new();
    let mut i: usize = 0;
    while i < n
        invariant
            i <= n <= v.len(),
            forall|k: int| 0 <= k < n ==> v@[k] != '.' && v@[k] != '@',
            tag@ == v@.take(i as int).map_values(|c: char| dash_to_underscore(c)),
            is_ascii_text(v@) ==> is_ascii_text(tag@),
        decreases n - i,
    {
        let c = v[i];
        tag.push(if c == '-' { '_' } else { c });
        i += 1;
        assert(tag@ =~= v@.take(i as int).map_values(|c: char| dash_to_underscore(c)));
    }
    proof {
        lemma_locale_tag(v@, n as int);
    }
    let lower = lowercased(&tag);
    let parts = split_at_char(&lower, '_');
    let p0 = &parts[0];
    let two = parts.len() > 1;
    if eq_str(p0, "zh") && two && (eq_str(&parts[1], "tw") || eq_str(&parts[1], "hk") || eq_str(
        &parts[1],
        "mo",
    ) || eq_str(&parts[1], "hant")) {
        Language::TraditionalChinese
    } else if eq_str(p0, "zh") {
        Language::SimplifiedChinese
    } else if eq_str(p0, "ja") {
        Language::Japanese
    } else if eq_str(p0, "ko") {
        Language::Korean
    } else if eq_str(p0, "ru") {
        Language::Russian
    } else if eq_str(p0, "es") {
        Language::Spanish
    } else if eq_str(p0, "fr") {
        Language::French
    } else if eq_str(p0, "de") {
        Language::German
    } else {
        Language::English
    }
}

proof fn lemma_locale_tag(s: Seq<char>, n: int)
    requires
        0 <= n <= s.len(),
        forall|k: int| 0 <= k < n ==> s[k] != '.' && s[k] != '@',
        n == s.len() || s[n] == '.' || s[n] == '@',
    ensures
        locale_tag(s) == s.take(n),
    decreases n,
{
    if n == 0 {
        assert(s.take(0) =~= Seq::<char>::empty());
    } else {
        lemma_locale_tag(s.drop_first(), n - 1);
        assert(seq![s[0]] + s.drop_first().take(n - 1) =~= s.take(n));
    }
}

/// The locale the system asks for: the first of LC_ALL, LC_MESSAGES and
/// LANG that is set and not empty, as POSIX orders them; empty if none is.
pub open spec fn chosen_locale(
    lc_all: Option<Seq<char>>,
    lc_messages: Option<Seq<char>>,
    lang: Option<Seq<char>>,
) -> Seq<char> {
    if lc_all matches Some(v) && v.len() > 0 {
        lc_all.unwrap()
    } else if lc_messages matches Some(v) && v.len() > 0 {
        lc_messages.unwrap()
    } else if lang matches Some(v) && v.len() > 0 {
        lang.unwrap()
    } else {
        Seq::empty()
    }
}

pub open spec fn opt_view(v: Option<String>) -> Option<Seq<char>> {
    match v {
        Some(s) => Some(s@),
        None => None,
    }
}

/// The locale the system asks for, from the values of LC_ALL, LC_MESSAGES
/// and LANG (None where a variable is unset).
pub fn system_locale(lc_all: Option<String>, lc_messages: Option<String>, lang: Option<String>) -> (r: String)
    ensures
        r@ == chosen_locale(opt_view(lc_all), opt_view(lc_messages), opt_view(lang)),
{
    let a = match &lc_all {
        Some(v) => chars_of(v.as_str()),
        None => Vec::new(),
    };
    let m = match &lc_messages {
        Some(v) => chars_of(v.as_str()),
        None => Vec::new(),
    };
    let l = match &lang {
        Some(v) => chars_of(v.as_str()),
        None => Vec::new(),
    };
    let chosen: Vec<char> = if a.len() > 0 {
        a
    } else if m.len() > 0 {
        m
    } else {
        l
    };
    crate::text::string_of(&chosen)
}

/// The language the system locale asks for, from the values of LC_ALL,
/// LC_MESSAGES and LANG (None where a variable is unset).
pub fn from_locale(lc_all: Option<String>, lc_messages: Option<String>, lang: Option<String>) -> (r: Language)
    ensures
        r == locale_language(chosen_locale(opt_view(lc_all), opt_view(lc_messages), opt_view(lang))),
{
    let s = system_locale(lc_all, lc_messages, lang);
    parse_locale(s.as_str())
}

/// The interface language to switch to: `language` itself, or for Auto the
/// one the system locale asks for.
pub fn set(language: Language, system_locale: &str) -> (r: Language)
    ensures
        r == (if language == Language::Auto { locale_language(system_locale@) } else { language }),
        language == Language::Auto && is_ascii_text(system_locale@) ==> r == ascii_locale_language(system_locale@),
{
    match language {
        Language::Auto => parse_locale(system_locale),
        other => other,
    }
}

/// A message with its placeholders filled in: `{path}` replaced by `path`,
/// then `{error}` by `error`.
pub open spec fn filled(message: Seq<char>, path: Seq<char>, error: Seq<char>) -> Seq<char> {
    replace_all(replace_all(message, "{path}"@, path), "{error}"@, error)
}

/// Fills the placeholders of a message (see `filled`).
pub fn fill(message: &str, path: &str, error: &str) -> (r: String)
    ensures
        r@ == filled(message@, path@, error@),
{
    let path_mark = chars_of("{path}");
    let error_mark = chars_of("{error}");
    proof {
        reveal_strlit("{path}");
        reveal_strlit("{error}");
    }
    let once = replace_all_of(chars_of(message).as_slice(), path_mark.as_slice(), chars_of(path).as_slice());
    let twice = replace_all_of(once.as_slice(), error_mark.as_slice(), chars_of(error).as_slice());
    string_of(&twice)
}

/// The locale name starts with the two-letter language code `a` `b`, in
/// either letter case, followed by nothing or by `_`, `-`, `.` or `@`.
pub open spec fn has_language_code(s: Seq<char>, a: char, b: char) -> bool {
    &&& s.len() >= 2
    &&& lower(s[0]) == a
    &&& lower(s[1]) == b
    &&& (s.len() == 2 || s[2] == '_' || s[2] == '-' || s[2] == '.' || s[2] == '@')
}

proof fn lemma_locale_tag_keeps(s: Seq<char>, k: int)
    requires
        0 <= k < s.len(),
        forall|j: int| 0 <= j <= k ==> s[j] != '.' && s[j] != '@',
    ensures
        locale_tag(s).len() > k,
        locale_tag(s)[k] == s[k],
    decreases k,
{
    if k > 0 {
        lemma_locale_tag_keeps(s.drop_first(), k - 1);
    }
}

proof fn lemma_split_two(s: Seq<char>, sep: char)
    requires
        s.contains(sep),
    ensures
        split(s, sep).len() >= 2,
    decreases s.len(),
{
    lemma_split_nonempty(s, sep);
    if s.last() != sep {
        assert(s.drop_last().contains(sep)) by {
            let k = choose|k: int| 0 <= k < s.len() && s[k] == sep;
            assert(k != s.len() - 1);
            assert(s.drop_last()[k] == sep);
        }
        lemma_split_two(s.drop_last(), sep);
    } else {
        lemma_split_nonempty(s.drop_last(), sep);
    }
}

/// The first piece `split` makes ends at the first separator.
proof fn lemma_split_first(s: Seq<char>, sep: char, k: int)
    requires
        0 <= k <= s.len(),
        forall|j: int| 0 <= j < k ==> s[j] != sep,
        k == s.len() || s[k] == sep,
    ensures
        split(s, sep)[0] == s.take(k),
    decreases s.len(),
{
    if k == s.len() {
        assert(!s.contains(sep));
        lemma_split_without_sep(s, sep);
        assert(s.take(k) =~= s);
    } else {
        let dl = s.drop_last();
        lemma_split_first(dl, sep, k);
        assert(dl.take(k) =~= s.take(k));
        lemma_split_nonempty(dl, sep);
        if k < dl.len() {
            assert(dl.contains(sep)) by {
                assert(dl[k] == sep);
            }
            lemma_split_two(dl, sep);
        } else {
            assert(s.last() == s[k]);
        }
    }
}

/// The first piece of the lowered locale tag is the language code.
proof fn lemma_language_code(s: Seq<char>, a: char, b: char)
    requires
        has_language_code(s, a, b),
        'a' <= a <= 'z',
        'a' <= b <= 'z',
    ensures
        split(lower_all(locale_tag(s).map_values(|c: char| dash_to_underscore(c))), '_')[0] == seq![a, b],
{
    assert(s[0] != '.' && s[0] != '@' && s[0] != '-' && s[0] != '_');
    assert(s[1] != '.' && s[1] != '@' && s[1] != '-' && s[1] != '_');
    lemma_locale_tag_keeps(s, 0);
    lemma_locale_tag_keeps(s, 1);
    let tag = locale_tag(s);
    if s.len() == 2 || s[2] == '.' || s[2] == '@' {
        lemma_locale_tag(s, 2);
        assert(tag.len() == 2);
    } else {
        lemma_locale_tag_keeps(s, 2);
    }
    let lo = lower_all(tag.map_values(|c: char| dash_to_underscore(c)));
    assert(lo[0] == a && lo[1] == b);
    assert(lo.len() == 2 || lo[2] == '_');
    lemma_split_first(lo, '_', 2);
    assert(lo.take(2) =~= seq![a, b]);
}

/// Each language code picks its language: a locale whose language code is
/// ko gives Korean, ja Japanese, ru Russian, es Spanish, fr French, de
/// German, and zh with no region or script Simplified Chinese (zh_TW, zh_HK,
/// zh_MO and zh-Hant give Traditional Chinese), whatever the case of the
/// code and whatever follows it.
pub proof fn law_language_codes(s: Seq<char>)
    ensures
        has_language_code(s, 'k', 'o') ==> ascii_locale_language(s) == Language::Korean,
        has_language_code(s, 'j', 'a') ==> ascii_locale_language(s) == Language::Japanese,
        has_language_code(s, 'r', 'u') ==> ascii_locale_language(s) == Language::Russian,
        has_language_code(s, 'e', 's') ==> ascii_locale_language(s) == Language::Spanish,
        has_language_code(s, 'f', 'r') ==> ascii_locale_language(s) == Language::French,
        has_language_code(s, 'd', 'e') ==> ascii_locale_language(s) == Language::German,
        has_language_code(s, 'z', 'h') && (s.len() == 2 || s[2] == '.' || s[2] == '@')
            ==> ascii_locale_language(s) == Language::SimplifiedChinese,
{
    reveal_strlit("zh");
    reveal_strlit("ja");
    reveal_strlit("ko");
    reveal_strlit("ru");
    reveal_strlit("es");
    reveal_strlit("fr");
    reveal_strlit("de");
    let codes = seq![('k', 'o'), ('j', 'a'), ('r', 'u'), ('e', 's'), ('f', 'r'), ('d', 'e'), ('z', 'h')];
    assert forall|i: int| 0 <= i < codes.len() && has_language_code(s, codes[i].0, codes[i].1) implies
        split(lower_all(locale_tag(s).map_values(|c: char| dash_to_underscore(c))), '_')[0] == seq![codes[i].0, codes[i].1] by {
        lemma_language_code(s, codes[i].0, codes[i].1);
    }
    if has_language_code(s, 'k', 'o') {
        assert(seq!['k', 'o'] =~= "ko"@);
        assert(codes[0] == ('k', 'o'));
    }
    if has_language_code(s, 'j', 'a') {
        assert(seq!['j', 'a'] =~= "ja"@);
        assert(codes[1] == ('j', 'a'));
    }
    if has_language_code(s, 'r', 'u') {
        assert(seq!['r', 'u'] =~= "ru"@);
        assert(codes[2] == ('r', 'u'));
    }
    if has_language_code(s, 'e', 's') {
        assert(seq!['e', 's'] =~= "es"@);
        assert(codes[3] == ('e', 's'));
    }
    if has_language_code(s, 'f', 'r') {
        assert(seq!['f', 'r'] =~= "fr"@);
        assert(codes[4] == ('f', 'r'));
    }
    if has_language_code(s, 'd', 'e') {
        assert(seq!['d', 'e'] =~= "de"@);
        assert(codes[5] == ('d', 'e'));
    }
    if has_language_code(s, 'z', 'h') && (s.len() == 2 || s[2] == '.' || s[2] == '@') {
        assert(seq!['z', 'h'] =~= "zh"@);
        assert(codes[6] == ('z', 'h'));
        lemma_locale_tag(s, 2);
        let lo = lower_all(locale_tag(s).map_values(|c: char| dash_to_underscore(c)));
        assert(lo.len() == 2);
        assert(!lo.contains('_')) by {
            assert(lo[0] == 'z' && lo[1] == 'h') by {
                lemma_language_code(s, 'z', 'h');
                lemma_split_first(lo, '_', 2);
            }
        }
        lemma_split_without_sep(lo, '_');
    }
}

} // verus!
