//! Configuration of the interactive fuzzy picker.
//!
//! The picker itself is an external collaborator; this module only builds
//! its configuration and the exact argument list it is launched with.

use vstd::prelude::*;

use crate::text::concat_strs;

verus! {

/// How the picker is launched.
pub struct FzfPicker {
    pub prompt: String,
    pub preview_command: Option<String>,
    pub preview_window: String,
    pub delimiter: Option<String>,
    pub with_nth: Option<String>,
}

/// The argument list the picker is launched with.
pub open spec fn spec_fzf_args(p: &FzfPicker) -> Seq<Seq<char>> {
    seq!["--ansi"@, "--prompt="@ + p.prompt@] + (if p.delimiter is Some {
        seq!["--delimiter"@, p.delimiter -> 0@]
    } else {
        Seq::<Seq<char>>::empty()
    }) + (if p.with_nth is Some {
        seq!["--with-nth"@, p.with_nth -> 0@]
    } else {
        Seq::<Seq<char>>::empty()
    }) + (if p.preview_command is Some {
        seq!["--preview"@, p.preview_command -> 0@, "--preview-window"@, p.preview_window@]
    } else {
        Seq::<Seq<char>>::empty()
    })
}

impl FzfPicker {
    /// A picker with the default prompt and preview placement.
    pub fn new() -> (r: FzfPicker)
        ensures
            r.prompt@ == "Select an item: "@,
            r.preview_command is None,
            r.preview_window@ == "right:60%"@,
            r.delimiter is None,
            r.with_nth is None,
    {
        FzfPicker {
            prompt: "Select an item: ".to_owned(),
            preview_command: None,
            preview_window: "right:60%".to_owned(),
            delimiter: None,
            with_nth: None,
        }
    }

    /// Replaces the prompt.
    pub fn with_prompt(self, prompt: &str) -> (r: FzfPicker)
        ensures
            r.prompt@ == prompt@,
            r.preview_command == self.preview_command,
            r.preview_window == self.preview_window,
            r.delimiter == self.delimiter,
            r.with_nth == self.with_nth,
    {
        FzfPicker {
            prompt: prompt.to_owned(),
            preview_command: self.preview_command,
            preview_window: self.preview_window,
            delimiter: self.delimiter,
            with_nth: self.with_nth,
        }
    }

    /// Sets the preview command.
    pub fn with_preview_command(self, command: &str) -> (r: FzfPicker)
        ensures
            r.preview_command is Some && r.preview_command -> 0@ == command@,
            r.prompt == self.prompt,
            r.preview_window == self.preview_window,
            r.delimiter == self.delimiter,
            r.with_nth == self.with_nth,
    {
        FzfPicker {
            prompt: self.prompt,
            preview_command: Some(command.to_owned()),
            preview_window: self.preview_window,
            delimiter: self.delimiter,
            with_nth: self.with_nth,
        }
    }

    /// Sets the field delimiter.
    pub fn with_delimiter(self, delimiter: &str) -> (r: FzfPicker)
        ensures
            r.delimiter is Some && r.delimiter -> 0@ == delimiter@,
            r.prompt == self.prompt,
            r.preview_command == self.preview_command,
            r.preview_window == self.preview_window,
            r.with_nth == self.with_nth,
    {
        FzfPicker {
            prompt: self.prompt,
            preview_command: self.preview_command,
            preview_window: self.preview_window,
            delimiter: Some(delimiter.to_owned()),
            with_nth: self.with_nth,
        }
    }

    /// Restricts which fields the picker shows.
    pub fn with_nth(self, nth: &str) -> (r: FzfPicker)
        ensures
            r.with_nth is Some && r.with_nth -> 0@ == nth@,
            r.prompt == self.prompt,
            r.preview_command == self.preview_command,
            r.preview_window == self.preview_window,
            r.delimiter == self.delimiter,
    {
        FzfPicker {
            prompt: self.prompt,
            preview_command: self.preview_command,
            preview_window: self.preview_window,
            delimiter: self.delimiter,
            with_nth: Some(nth.to_owned()),
        }
    }

    /// The exact arguments the picker is launched with.
    pub fn command_args(&self) -> (r: Vec<String>)
        ensures
            r.deep_view() == spec_fzf_args(self),
    {
        let mut args: Vec<String> = Vec::new();
        args.push("--ansi".to_owned());
        args.push(concat_strs("--prompt=", self.prompt.as_str()));
        match &self.delimiter {
            Some(d) => {
                args.push("--delimiter".to_owned());
                args.push(d.clone());
            },
            None => {},
        }
        match &self.with_nth {
            Some(n) => {
                args.push("--with-nth".to_owned());
                args.push(n.clone());
            },
            None => {},
        }
        match &self.preview_command {
            Some(c) => {
                args.push("--preview".to_owned());
                args.push(c.clone());
                args.push("--preview-window".to_owned());
                args.push(self.preview_window.clone());
            },
            None => {},
        }
        proof {
            assert(args.deep_view() =~~= spec_fzf_args(self));
        }
        args
    }
}

} // verus!
