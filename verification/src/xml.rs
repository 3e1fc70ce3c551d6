//! The shape of a KronoX schedule document (`SchemaXML.jsp`), as its XML
//! elements and attributes hold it.
use vstd::prelude::*;

verus! {

/// One booking (`schemaPost`).
#[derive(Debug)]
pub struct EventPost {
    /// `moment`: the title, which may hold HTML markup.
    pub moment: String,
    /// `bokningsId`.
    pub booking_id: String,
    /// `bokadeDatum`.
    pub booked_dates: BookedDates,
    /// `senastAndradDatum_iCal`.
    pub last_modified: String,
    /// `resursTrad`.
    pub resource_row: ResourceRow,
}

/// Start and end of a booking (`bokadeDatum`).
#[derive(Debug)]
pub struct BookedDates {
    /// Attribute `startDatumTid_iCal`.
    pub start_date_time: String,
    /// Attribute `slutDatumTid_iCal`.
    pub end_date_time: String,
}

/// The resources a booking uses (`resursTrad`).
#[derive(Debug)]
pub struct ResourceRow {
    /// `resursNod` elements.
    pub resource_nodes: Vec<ResourceNode>,
}

/// One resource of a booking (`resursNod`).
#[derive(Debug)]
pub struct ResourceNode {
    /// Attribute `resursTypId`.
    pub type_id: String,
    /// `resursId`.
    pub id: String,
    /// `resursIdURLEncoded`.
    pub url_encoded_id: String,
}

/// A table of explanations for one resource type (`forklaringsrader`).
#[derive(Debug)]
pub struct ExplanationRow {
    /// Attribute `typ`.
    pub row_type: String,
    /// `rad` elements.
    pub rows: Vec<Row>,
}

/// One row of an explanation table (`rad`).
#[derive(Debug)]
pub struct Row {
    /// `kolumn` elements.
    pub columns: Vec<Column>,
}

/// One cell of an explanation row (`kolumn`).
#[derive(Debug)]
pub struct Column {
    /// Attribute `rubrik`.
    pub header: String,
    /// The element's text.
    pub value: String,
}

/// The whole document (`schema`).
#[derive(Debug)]
pub struct KronoxScheduleXml {
    /// `schemaPost` elements.
    pub posts: Vec<EventPost>,
    /// `forklaringstexter`.
    pub explanation_texts: ExplanationTexts,
}

/// The explanation tables (`forklaringstexter`).
#[derive(Debug)]
pub struct ExplanationTexts {
    /// `forklaringsrader` elements.
    pub rows: Vec<ExplanationRow>,
}

} // verus!
