//! What a launch asks for: the resource to open, the namespace to start in,
//! and whether it opens the context picker first.

use crate::config::texts;
use vstd::prelude::*;
use vstd::string::StringExecFns;

verus! {

/// The launch options that decide where a session starts.
pub struct LaunchArgs {
    /// The positional resource.
    pub resource: Option<String>,
    /// The resource given with `--resource`.
    pub explicit_resource: Option<String>,
    /// `-n`/`--namespace`.
    pub namespace: Option<String>,
    /// `-A`/`--all-namespaces`.
    pub all_namespaces: bool,
    /// `--context`.
    pub context: Option<String>,
    /// `--check`.
    pub check: bool,
    /// `--snapshot`.
    pub snapshot: bool,
}

/// The text of an optional string.
pub open spec fn opt_view(o: Option<String>) -> Option<Seq<char>> {
    match o {
        Some(s) => Some(s@),
        None => None,
    }
}

/// Whether `r` names the context picker.
pub open spec fn picker_resource(r: Option<Seq<char>>) -> bool {
    r == Some("ctx"@) || r == Some("contexts"@)
}

impl LaunchArgs {
    /// The resource asked for: `--resource` wins over the positional one.
    pub open spec fn resource_view(&self) -> Option<Seq<char>> {
        match self.explicit_resource {
            Some(r) => Some(r@),
            None => opt_view(self.resource),
        }
    }

    /// The resource asked for on the command line, if any.
    pub fn resource(&self) -> (r: Option<&str>)
        ensures
            match r {
                Some(s) => self.resource_view() == Some(s@),
                None => self.resource_view() is None,
            },
    {
        match &self.explicit_resource {
            Some(r) => Some(r.as_str()),
            None => match &self.resource {
                Some(r) => Some(r.as_str()),
                None => None,
            },
        }
    }

    /// The resource a session opens on: the command line wins over the
    /// configured `default`, and pods when neither names one.
    pub fn launch_resource(&self, default: Option<&str>) -> (r: String)
        ensures
            r@ == match self.resource_view() {
                Some(s) => s,
                None => match default {
                    Some(d) => d@,
                    None => "pods"@,
                },
            },
    {
        match self.resource() {
            Some(s) => String::from_str(s),
            None => match default {
                Some(d) => String::from_str(d),
                None => String::from_str("pods"),
            },
        }
    }

    /// The namespace the launch asks for: all namespaces (the empty name)
    /// under `-A`, else the one given with `-n`.
    pub fn launch_namespace(&self) -> (r: Option<String>)
        ensures
            opt_view(r) == if self.all_namespaces {
                Some(Seq::<char>::empty())
            } else {
                opt_view(self.namespace)
            },
    {
        if self.all_namespaces {
            Some(String::new())
        } else {
            match &self.namespace {
                Some(n) => Some(n.clone()),
                None => None,
            }
        }
    }

    /// A context named with `--context` for the picker must be one of
    /// `contexts`.
    pub fn validate_picker_context(&self, contexts: &[String]) -> (r: Result<(), String>)
        ensures
            match self.context {
                Some(name) => if texts(contexts@).contains(name@) {
                    r is Ok
                } else {
                    r matches Err(e) && e@ == "context '"@ + name@ + "' not found in kubeconfig"@
                },
                None => r is Ok,
            },
    {
        match &self.context {
            Some(name) => {
                let mut i: usize = 0;
                while i < contexts.len()
                    invariant
                        i <= contexts@.len(),
                        self.context == Some(*name),
                        forall|j: int| 0 <= j < i ==> contexts@[j]@ != name@,
                    decreases contexts.len() - i,
                {
                    if contexts[i] == *name {
                        assert(texts(contexts@)[i as int] == name@);
                        assert(texts(contexts@).contains(name@));
                        return Ok(());
                    }
                    i = i + 1;
                }
                assert(!texts(contexts@).contains(name@)) by {
                    if texts(contexts@).contains(name@) {
                        let j = choose|j: int| 0 <= j < texts(contexts@).len() && texts(contexts@)[j] == name@;
                        assert(contexts@[j]@ == name@);
                    }
                }
                let mut e = String::from_str("context '");
                e.append(name.as_str());
                e.append("' not found in kubeconfig");
                Err(e)
            },
            None => Ok(()),
        }
    }

    /// Whether the launch opens the context picker (`ctx` or `contexts`);
    /// refused with `--check` or `--snapshot`, which need no terminal.
    pub fn context_picker(&self) -> (r: Result<bool, String>)
        ensures
            if picker_resource(self.resource_view()) && (self.check || self.snapshot) {
                r matches Err(e) && e@ == "ctx and contexts require interactive mode; remove --check or --snapshot"@
            } else {
                r == Ok::<bool, String>(picker_resource(self.resource_view()))
            },
    {
        let picker = match self.resource() {
            Some(s) => {
                let t = String::from_str(s);
                crate::config::same_text(&t, "ctx") || crate::config::same_text(&t, "contexts")
            },
            None => false,
        };
        if picker && (self.check || self.snapshot) {
            return Err(String::from_str("ctx and contexts require interactive mode; remove --check or --snapshot"));
        }
        Ok(picker)
    }
}

} // verus!
