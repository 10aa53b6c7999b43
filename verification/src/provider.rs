//! A provider as it is stored, and the errors of working with one.

use vstd::prelude::*;

use crate::json::{owned_view, Json, JsonView};
use crate::text::string_view;

verus! {

/// A provider: who it is, and the settings that are written out where it is in use.
#[derive(Debug, PartialEq)]
pub struct Provider {
    pub id: String,
    pub name: String,
    pub settings_config: Json,
    pub website_url: Option<String>,
    pub category: Option<String>,
    pub created_at: Option<i64>,
    pub sort_index: Option<usize>,
    pub notes: Option<String>,
    pub meta: Option<Json>,
    pub icon: Option<String>,
    pub icon_color: Option<String>,
    pub in_failover_queue: bool,
}

/// What a [`Provider`] stands for.
#[verifier::ext_equal]
pub struct ProviderView {
    pub id: Seq<char>,
    pub name: Seq<char>,
    pub settings_config: JsonView,
    pub website_url: Option<Seq<char>>,
    pub category: Option<Seq<char>>,
    pub created_at: Option<i64>,
    pub sort_index: Option<usize>,
    pub notes: Option<Seq<char>>,
    pub meta: Option<JsonView>,
    pub icon: Option<Seq<char>>,
    pub icon_color: Option<Seq<char>>,
    pub in_failover_queue: bool,
}

impl View for Provider {
    type V = ProviderView;

    open spec fn view(&self) -> ProviderView {
        ProviderView {
            id: self.id@,
            name: self.name@,
            settings_config: self.settings_config@,
            website_url: string_view(self.website_url),
            category: string_view(self.category),
            created_at: self.created_at,
            sort_index: self.sort_index,
            notes: string_view(self.notes),
            meta: owned_view(self.meta),
            icon: string_view(self.icon),
            icon_color: string_view(self.icon_color),
            in_failover_queue: self.in_failover_queue,
        }
    }
}

/// The provider of which nothing but its names, its settings and perhaps its site is known.
pub open spec fn bare_provider(
    id: Seq<char>,
    name: Seq<char>,
    settings_config: JsonView,
    website_url: Option<Seq<char>>,
) -> ProviderView {
    ProviderView {
        id,
        name,
        settings_config,
        website_url,
        category: None,
        created_at: None,
        sort_index: None,
        notes: None,
        meta: None,
        icon: None,
        icon_color: None,
        in_failover_queue: false,
    }
}

/// A copy of a string that may be missing.
fn copy_text(s: &Option<String>) -> (copy: Option<String>)
    ensures
        string_view(copy) == string_view(*s),
{
    match s {
        Some(s) => Some(s.clone()),
        None => None,
    }
}

impl Clone for Provider {
    fn clone(&self) -> (copy: Provider)
        ensures
            copy@ == self@,
    {
        Provider {
            id: self.id.clone(),
            name: self.name.clone(),
            settings_config: self.settings_config.clone(),
            website_url: copy_text(&self.website_url),
            category: copy_text(&self.category),
            created_at: self.created_at,
            sort_index: self.sort_index,
            notes: copy_text(&self.notes),
            meta: match &self.meta {
                Some(meta) => Some(meta.clone()),
                None => None,
            },
            icon: copy_text(&self.icon),
            icon_color: copy_text(&self.icon_color),
            in_failover_queue: self.in_failover_queue,
        }
    }
}

impl Provider {
    /// The provider of which nothing but its names, its settings and perhaps its site is known.
    pub fn with_id(
        id: String,
        name: String,
        settings_config: Json,
        website_url: Option<String>,
    ) -> (provider: Provider)
        ensures
            provider@ == bare_provider(id@, name@, settings_config@, string_view(website_url)),
    {
        Provider {
            id,
            name,
            settings_config,
            website_url,
            category: None,
            created_at: None,
            sort_index: None,
            notes: None,
            meta: None,
            icon: None,
            icon_color: None,
            in_failover_queue: false,
        }
    }
}

/// Why an operation on providers failed.
#[derive(Debug, PartialEq)]
pub enum AppError {
    /// The configuration does not allow it.
    Config(String),
    /// Anything else, in words.
    Message(String),
}

/// What an [`AppError`] stands for.
pub enum AppErrorView {
    Config(Seq<char>),
    Message(Seq<char>),
}

impl View for AppError {
    type V = AppErrorView;

    open spec fn view(&self) -> AppErrorView {
        match self {
            AppError::Config(message) => AppErrorView::Config(message@),
            AppError::Message(message) => AppErrorView::Message(message@),
        }
    }
}

/// The view of an operation's outcome.
pub open spec fn outcome_view(outcome: Result<Provider, AppError>) -> Result<
    ProviderView,
    AppErrorView,
> {
    match outcome {
        Ok(provider) => Ok(provider@),
        Err(error) => Err(error@),
    }
}

} // verus!
