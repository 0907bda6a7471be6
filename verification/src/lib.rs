pub mod text;
pub mod model;
pub mod export;
pub mod pages;
pub mod storage;
pub mod fountain;
pub mod icons;
pub mod alerts;
pub mod settings;
pub mod theme;
pub mod caret;
pub mod ui;
pub mod editor;
pub mod cards;
pub mod blur;
pub mod shell;
pub mod roundtrip;
pub mod history;
pub mod scenes;
pub mod settings_file;
