//! Raw source-table rows.
//!
//! One struct per table of the source database, with every field optional:
//! a row missing a field is carried as `None`, and the joins decide which
//! missing fields drop the row. Each row type has a ghost counterpart (its
//! deep view) whose string fields are character sequences, so that contracts
//! can speak of row contents independently of `String` allocation.

use vstd::prelude::*;

verus! {

/// The competition table: one row per competition held in the source file.
#[derive(Debug, Clone)]
pub struct TCompetition {
    pub no_competition: Option<i32>,
    pub lieu: Option<String>,
    pub date: Option<String>,
    pub no_club: Option<i32>,
}

pub struct TCompetitionView {
    pub no_competition: Option<i32>,
    pub lieu: Option<Seq<char>>,
    pub date: Option<Seq<char>>,
    pub no_club: Option<i32>,
}

impl DeepView for TCompetition {
    type V = TCompetitionView;

    open spec fn deep_view(&self) -> TCompetitionView {
        TCompetitionView {
            no_competition: self.no_competition,
            lieu: self.lieu.deep_view(),
            date: self.date.deep_view(),
            no_club: self.no_club,
        }
    }
}

/// The skaters table: one row per registered skater.
#[derive(Debug, Clone)]
pub struct TPatineurs {
    pub no_patineur: Option<i32>,
    pub prenom: Option<String>,
    pub nom: Option<String>,
    pub date_naissance: Option<String>,
    pub sexe: Option<String>,
    pub division: Option<String>,
    pub no_categorie: Option<i32>,
    pub no_club: Option<i32>,
    pub code_pat: Option<String>,
}

pub struct TPatineursView {
    pub no_patineur: Option<i32>,
    pub prenom: Option<Seq<char>>,
    pub nom: Option<Seq<char>>,
    pub date_naissance: Option<Seq<char>>,
    pub sexe: Option<Seq<char>>,
    pub division: Option<Seq<char>>,
    pub no_categorie: Option<i32>,
    pub no_club: Option<i32>,
    pub code_pat: Option<Seq<char>>,
}

impl DeepView for TPatineurs {
    type V = TPatineursView;

    open spec fn deep_view(&self) -> TPatineursView {
        TPatineursView {
            no_patineur: self.no_patineur,
            prenom: self.prenom.deep_view(),
            nom: self.nom.deep_view(),
            date_naissance: self.date_naissance.deep_view(),
            sexe: self.sexe.deep_view(),
            division: self.division.deep_view(),
            no_categorie: self.no_categorie,
            no_club: self.no_club,
            code_pat: self.code_pat.deep_view(),
        }
    }
}

/// The skater-in-competition table: one row per entry of a skater into a
/// competition.
#[derive(Debug, Clone)]
pub struct TPatineurCompe {
    pub no_pat_compe: Option<i32>,
    pub no_competition: Option<i32>,
    pub no_patineur: Option<i32>,
    pub no_categorie: Option<i32>,
    pub no_club: Option<i32>,
    pub rang: Option<i32>,
    pub retirer: Option<i32>,
    pub groupe: Option<String>,
    pub no_casque: Option<i32>,
}

pub struct TPatineurCompeView {
    pub no_pat_compe: Option<i32>,
    pub no_competition: Option<i32>,
    pub no_patineur: Option<i32>,
    pub no_categorie: Option<i32>,
    pub no_club: Option<i32>,
    pub rang: Option<i32>,
    pub retirer: Option<i32>,
    pub groupe: Option<Seq<char>>,
    pub no_casque: Option<i32>,
}

impl DeepView for TPatineurCompe {
    type V = TPatineurCompeView;

    open spec fn deep_view(&self) -> TPatineurCompeView {
        TPatineurCompeView {
            no_pat_compe: self.no_pat_compe,
            no_competition: self.no_competition,
            no_patineur: self.no_patineur,
            no_categorie: self.no_categorie,
            no_club: self.no_club,
            rang: self.rang,
            retirer: self.retirer,
            groupe: self.groupe.deep_view(),
            no_casque: self.no_casque,
        }
    }
}

/// The clubs table: one row per club, with its full name and abbreviation.
#[derive(Debug, Clone)]
pub struct TClubs {
    pub no_club: Option<i32>,
    pub nom_du_club: Option<String>,
    pub commentaire: Option<String>,
    pub no_region: Option<i32>,
    pub abreviation: Option<String>,
}

pub struct TClubsView {
    pub no_club: Option<i32>,
    pub nom_du_club: Option<Seq<char>>,
    pub commentaire: Option<Seq<char>>,
    pub no_region: Option<i32>,
    pub abreviation: Option<Seq<char>>,
}

impl DeepView for TClubs {
    type V = TClubsView;

    open spec fn deep_view(&self) -> TClubsView {
        TClubsView {
            no_club: self.no_club,
            nom_du_club: self.nom_du_club.deep_view(),
            commentaire: self.commentaire.deep_view(),
            no_region: self.no_region,
            abreviation: self.abreviation.deep_view(),
        }
    }
}

/// The standard-distances table: one row per distance that can be scheduled.
#[derive(Debug, Clone)]
pub struct TDistancesStandards {
    pub no_distance: Option<i32>,
    pub distance: Option<String>,
    pub longueur_epreuve: Option<i32>,
}

pub struct TDistancesStandardsView {
    pub no_distance: Option<i32>,
    pub distance: Option<Seq<char>>,
    pub longueur_epreuve: Option<i32>,
}

impl DeepView for TDistancesStandards {
    type V = TDistancesStandardsView;

    open spec fn deep_view(&self) -> TDistancesStandardsView {
        TDistancesStandardsView {
            no_distance: self.no_distance,
            distance: self.distance.deep_view(),
            longueur_epreuve: self.longueur_epreuve,
        }
    }
}

/// The programmed-courses table: one row per distance scheduled within a
/// competition.
#[derive(Debug, Clone)]
pub struct TProgCourses {
    pub cle_distances_compe: Option<i32>,
    pub no_competition: Option<i32>,
    pub no_distance: Option<i32>,
    pub distance: Option<String>,
    pub no_vague: Option<String>,
    pub groupe: Option<String>,
}

pub struct TProgCoursesView {
    pub cle_distances_compe: Option<i32>,
    pub no_competition: Option<i32>,
    pub no_distance: Option<i32>,
    pub distance: Option<Seq<char>>,
    pub no_vague: Option<Seq<char>>,
    pub groupe: Option<Seq<char>>,
}

impl DeepView for TProgCourses {
    type V = TProgCoursesView;

    open spec fn deep_view(&self) -> TProgCoursesView {
        TProgCoursesView {
            cle_distances_compe: self.cle_distances_compe,
            no_competition: self.no_competition,
            no_distance: self.no_distance,
            distance: self.distance.deep_view(),
            no_vague: self.no_vague.deep_view(),
            groupe: self.groupe.deep_view(),
        }
    }
}

/// The waves table: one row per scheduled race (wave) of a program item.
#[derive(Debug, Clone)]
pub struct TVagues {
    pub cle_tvagues: Option<i32>,
    pub no_vague: Option<String>,
    pub cle_distances_compe: Option<i32>,
    pub qual_ou_fin: Option<String>,
    pub seq: Option<i32>,
}

pub struct TVaguesView {
    pub cle_tvagues: Option<i32>,
    pub no_vague: Option<Seq<char>>,
    pub cle_distances_compe: Option<i32>,
    pub qual_ou_fin: Option<Seq<char>>,
    pub seq: Option<i32>,
}

impl DeepView for TVagues {
    type V = TVaguesView;

    open spec fn deep_view(&self) -> TVaguesView {
        TVaguesView {
            cle_tvagues: self.cle_tvagues,
            no_vague: self.no_vague.deep_view(),
            cle_distances_compe: self.cle_distances_compe,
            qual_ou_fin: self.qual_ou_fin.deep_view(),
            seq: self.seq,
        }
    }
}

/// The skater-in-wave table: one row per lane assignment of a skater entry
/// within a wave.
#[derive(Debug, Clone)]
pub struct TPatVagues {
    pub cle_tvagues: Option<i32>,
    pub no_pat_compe: Option<i32>,
    pub temps: Option<String>,
    pub rang: Option<i32>,
    pub no_casque: Option<i32>,
    pub cle_tpat_vagues: Option<i32>,
}

pub struct TPatVaguesView {
    pub cle_tvagues: Option<i32>,
    pub no_pat_compe: Option<i32>,
    pub temps: Option<Seq<char>>,
    pub rang: Option<i32>,
    pub no_casque: Option<i32>,
    pub cle_tpat_vagues: Option<i32>,
}

impl DeepView for TPatVagues {
    type V = TPatVaguesView;

    open spec fn deep_view(&self) -> TPatVaguesView {
        TPatVaguesView {
            cle_tvagues: self.cle_tvagues,
            no_pat_compe: self.no_pat_compe,
            temps: self.temps.deep_view(),
            rang: self.rang,
            no_casque: self.no_casque,
            cle_tpat_vagues: self.cle_tpat_vagues,
        }
    }
}

} // verus!
