//! Package dependencies, grouped by target framework.
use vstd::prelude::*;

verus! {

/// A dependency on another package: its id and the version range it accepts
/// (empty for any version).
#[derive(Debug, Default)]
pub struct Dependency {
    pub id: String,
    pub range: String,
}

/// The mathematical value of a [`Dependency`].
pub struct DependencyView {
    pub id: Seq<char>,
    pub range: Seq<char>,
}

impl View for Dependency {
    type V = DependencyView;

    open spec fn view(&self) -> DependencyView {
        DependencyView { id: self.id@, range: self.range@ }
    }
}

/// The dependencies that apply to one target framework (`None`: to every framework).
#[derive(Debug, Default)]
pub struct DependencyGroup {
    pub target_framework: Option<String>,
    pub dependencies: Vec<Dependency>,
}

/// The mathematical value of a [`DependencyGroup`].
pub struct DependencyGroupView {
    pub target_framework: Option<Seq<char>>,
    pub dependencies: Seq<DependencyView>,
}

/// The views of a sequence of dependencies.
pub open spec fn dependencies_view(v: Seq<Dependency>) -> Seq<DependencyView> {
    v.map_values(|d: Dependency| d@)
}

/// The views of a sequence of dependency groups.
pub open spec fn groups_view(v: Seq<DependencyGroup>) -> Seq<DependencyGroupView> {
    v.map_values(|g: DependencyGroup| g@)
}

impl View for DependencyGroup {
    type V = DependencyGroupView;

    open spec fn view(&self) -> DependencyGroupView {
        DependencyGroupView {
            target_framework: self.target_framework.deep_view(),
            dependencies: dependencies_view(self.dependencies@),
        }
    }
}

impl Clone for Dependency {
    fn clone(&self) -> (r: Self)
        ensures
            r == *self,
    {
        Dependency { id: self.id.clone(), range: self.range.clone() }
    }
}

impl Clone for DependencyGroup {
    fn clone(&self) -> (r: Self)
        ensures
            r@ == self@,
    {
        let target_framework = match &self.target_framework {
            Some(t) => Some(t.clone()),
            None => None,
        };
        let dependencies = self.dependencies.clone();
        assert forall|i: int| 0 <= i < dependencies@.len() implies dependencies@[i]
            == self.dependencies@[i] by {
            assert(cloned::<Dependency>(self.dependencies[i], dependencies[i]));
        }
        assert(dependencies@ =~= self.dependencies@);
        DependencyGroup { target_framework, dependencies }
    }
}

} // verus!
