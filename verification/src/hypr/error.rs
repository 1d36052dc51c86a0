//! Errors from talking to Hyprland.

use vstd::prelude::*;

use crate::outside::quote;
use crate::outside::quoted;

verus! {

/// Errors from talking to Hyprland.
#[derive(Debug)]
pub enum HyprError {
    /// Environment variables needed to locate the sockets are missing.
    MissingEnv(String),
    /// Socket-level IO failure.
    Io(String),
    /// Hyprland returned JSON we could not decode.
    Decode {
        /// The request that produced the reply.
        request: String,
        /// The decode failure.
        source: String,
    },
    /// A dispatcher was rejected by Hyprland.
    DispatchFailed {
        /// The rejected dispatch command.
        request: String,
        /// Hyprland's error reply.
        reply: String,
    },
}

/// What a [`HyprError`] holds.
#[verifier::ext_equal]
pub enum HyprErrorView {
    /// See [`HyprError::MissingEnv`].
    MissingEnv(Seq<char>),
    /// See [`HyprError::Io`].
    Io(Seq<char>),
    /// See [`HyprError::Decode`].
    Decode {
        /// The request that produced the reply.
        request: Seq<char>,
        /// The decode failure.
        source: Seq<char>,
    },
    /// See [`HyprError::DispatchFailed`].
    DispatchFailed {
        /// The rejected dispatch command.
        request: Seq<char>,
        /// Hyprland's error reply.
        reply: Seq<char>,
    },
}

impl View for HyprError {
    type V = HyprErrorView;

    open spec fn view(&self) -> HyprErrorView {
        match self {
            HyprError::MissingEnv(x0) => HyprErrorView::MissingEnv(x0.deep_view()),
            HyprError::Io(x0) => HyprErrorView::Io(x0.deep_view()),
            HyprError::Decode { request, source } => HyprErrorView::Decode {
                request: request.deep_view(),
                source: source.deep_view(),
            },
            HyprError::DispatchFailed { request, reply } => HyprErrorView::DispatchFailed {
                request: request.deep_view(),
                reply: reply.deep_view(),
            },
        }
    }
}

impl DeepView for HyprError {
    type V = HyprErrorView;

    open spec fn deep_view(&self) -> HyprErrorView {
        self.view()
    }
}

impl HyprErrorView {
    /// The message of the error.
    pub open spec fn message(self) -> Seq<char> {
        match self {
            HyprErrorView::MissingEnv(name) => "cannot locate Hyprland sockets: "@ + name
                + " is not set (is Hyprland running?)"@,
            HyprErrorView::Io(error) => "Hyprland IPC error: "@ + error,
            HyprErrorView::Decode { request, source } => "unexpected reply to "@ + quoted(request)
                + ": "@ + source,
            HyprErrorView::DispatchFailed { request, reply } => "dispatch "@ + quoted(request)
                + " failed: "@ + reply,
        }
    }
}

impl HyprError {
    /// The message of the error.
    pub fn message(&self) -> (r: String)
        ensures
            r@ == self@.message(),
    {
        match self {
            HyprError::MissingEnv(name) => {
                let mut out = "cannot locate Hyprland sockets: ".to_owned();
                out.append(name.as_str());
                out.append(" is not set (is Hyprland running?)");
                out
            },
            HyprError::Io(error) => {
                let mut out = "Hyprland IPC error: ".to_owned();
                out.append(error.as_str());
                out
            },
            HyprError::Decode { request, source } => {
                let mut out = "unexpected reply to ".to_owned();
                out.append(quote(request.as_str()).as_str());
                out.append(": ");
                out.append(source.as_str());
                out
            },
            HyprError::DispatchFailed { request, reply } => {
                let mut out = "dispatch ".to_owned();
                out.append(quote(request.as_str()).as_str());
                out.append(" failed: ");
                out.append(reply.as_str());
                out
            },
        }
    }
}

} // verus!
