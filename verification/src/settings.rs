use vstd::prelude::*;

use crate::changes::Change;
use crate::config::ThemeType;
use crate::database::Database;
use crate::remote::RemoteSeriesId;
use crate::sync::EntryModel;

verus! {

/// What the user changes on the settings page.
#[derive(Clone, Debug)]
pub enum SettingsMessage {
    /// Use the given theme.
    ThemeChanged(ThemeType),
    /// Use the given key for the legacy API of thetvdb.com.
    TvdbLegacyApiKeyChange(String),
    /// Use the given key for the API of themoviedb.org.
    TmdbApiKeyChange(String),
    /// Forget what was synchronized with the remote services.
    ClearSync,
}

/// Applies a change of the settings: the configuration changes, and is marked to be saved; or
/// the synchronization state is cleared, and marked to be saved.
pub fn update_settings(db: &mut Database, message: SettingsMessage)
    requires
        old(db).wf(),
    ensures
        final(db).wf(),
        final(db).remotes == old(db).remotes,
        final(db).series == old(db).series,
        final(db).episodes == old(db).episodes,
        final(db).seasons == old(db).seasons,
        final(db).watched == old(db).watched,
        final(db).pending == old(db).pending,
        final(db).tasks == old(db).tasks,
        final(db).changes.view().add == old(db).changes.view().add,
        final(db).changes.view().remove == old(db).changes.view().remove,
        match message {
            SettingsMessage::ClearSync => {
                &&& final(db).sync.view() == Map::<RemoteSeriesId, EntryModel>::empty()
                &&& final(db).config == old(db).config
                &&& final(db).changes.view().set == old(db).changes.view().set.insert(Change::Sync)
            },
            _ => {
                &&& final(db).sync == old(db).sync
                &&& final(db).changes.view().set == old(db).changes.view().set.insert(Change::Config)
                &&& match message {
                    SettingsMessage::ThemeChanged(theme) => final(db).config.theme == theme
                        && final(db).config.tvdb_legacy_apikey == old(db).config.tvdb_legacy_apikey
                        && final(db).config.tmdb_api_key == old(db).config.tmdb_api_key,
                    SettingsMessage::TvdbLegacyApiKeyChange(key) => final(db).config.tvdb_legacy_apikey
                        == key && final(db).config.theme == old(db).config.theme
                        && final(db).config.tmdb_api_key == old(db).config.tmdb_api_key,
                    SettingsMessage::TmdbApiKeyChange(key) => final(db).config.tmdb_api_key == key
                        && final(db).config.theme == old(db).config.theme
                        && final(db).config.tvdb_legacy_apikey == old(db).config.tvdb_legacy_apikey,
                    SettingsMessage::ClearSync => true,
                }
                &&& final(db).config.schedule_duration_days == old(db).config.schedule_duration_days
                &&& final(db).config.search_kind == old(db).config.search_kind
                &&& final(db).config.dashboard_limit == old(db).config.dashboard_limit
                &&& final(db).config.dashboard_page == old(db).config.dashboard_page
                &&& final(db).config.schedule_limit == old(db).config.schedule_limit
                &&& final(db).config.schedule_page == old(db).config.schedule_page
            },
        },
{
    match message {
        SettingsMessage::ThemeChanged(theme) => {
            db.config.theme = theme;
            db.changes.change(Change::Config);
        },
        SettingsMessage::TvdbLegacyApiKeyChange(key) => {
            db.config.tvdb_legacy_apikey = key;
            db.changes.change(Change::Config);
        },
        SettingsMessage::TmdbApiKeyChange(key) => {
            db.config.tmdb_api_key = key;
            db.changes.change(Change::Config);
        },
        SettingsMessage::ClearSync => {
            db.sync.clear();
            db.changes.change(Change::Sync);
        },
    }
}

} // verus!
