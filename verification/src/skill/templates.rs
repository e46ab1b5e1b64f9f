//! Filling a skill's template package: the blank packages a skill starts
//! from when it has no template file, and the replacement of `{{NAME}}`
//! placeholders in every part.
use vstd::prelude::*;
use crate::json::{json_text, number_text, push_number, to_json_text, JsonValue};
use crate::skills::runner::{build_output, output_is, OutputValue};
use crate::text::{
    chars_of, decimal, lossy_text, push_str, replace_all, replace_all_chars, str_bytes, string_of, u64_to_string,
    utf8_lossy,
};
use crate::writers::excel::{to_uppercase, uppercase};
use crate::package::{entries_view, read_zip, zip_read};

verus! {

// ---------------------------------------------------------------------------
// The parts of the blank packages
// ---------------------------------------------------------------------------

pub const XLSX_CONTENT_TYPES: &'static str = r#"<?xml version="1.0" encoding="UTF-8" standalone="yes"?>
<Types xmlns="http://schemas.openxmlformats.org/package/2006/content-types">
  <Default Extension="rels" ContentType="application/vnd.openxmlformats-package.relationships+xml"/>
  <Default Extension="xml" ContentType="application/xml"/>
  <Override PartName="/xl/workbook.xml" ContentType="application/vnd.openxmlformats-officedocument.spreadsheetml.sheet.main+xml"/>
  <Override PartName="/xl/worksheets/sheet1.xml" ContentType="application/vnd.openxmlformats-officedocument.spreadsheetml.worksheet+xml"/>
  <Override PartName="/xl/styles.xml" ContentType="application/vnd.openxmlformats-officedocument.spreadsheetml.styles+xml"/>
  <Override PartName="/xl/sharedStrings.xml" ContentType="application/vnd.openxmlformats-officedocument.spreadsheetml.sharedStrings+xml"/>
  <Override PartName="/xl/theme/theme1.xml" ContentType="application/vnd.openxmlformats-officedocument.theme+xml"/>
</Types>"#;

pub const XLSX_RELS: &'static str = r#"<?xml version="1.0" encoding="UTF-8" standalone="yes"?>
<Relationships xmlns="http://schemas.openxmlformats.org/package/2006/relationships">
  <Relationship Id="rId1" Type="http://schemas.openxmlformats.org/officeDocument/2006/relationships/officeDocument" Target="xl/workbook.xml"/>
</Relationships>"#;

pub const XLSX_WB: &'static str = r#"<?xml version="1.0" encoding="UTF-8" standalone="yes"?>
<workbook xmlns="http://schemas.openxmlformats.org/spreadsheetml/2006/main" xmlns:r="http://schemas.openxmlformats.org/officeDocument/2006/relationships">
  <sheets>
    <sheet name="{{SHEET_NAME}}" sheetId="1" r:id="rId1"/>
  </sheets>
</workbook>"#;

pub const XLSX_WB_RELS: &'static str = r#"<?xml version="1.0" encoding="UTF-8" standalone="yes"?>
<Relationships xmlns="http://schemas.openxmlformats.org/package/2006/relationships">
  <Relationship Id="rId1" Type="http://schemas.openxmlformats.org/officeDocument/2006/relationships/worksheet" Target="worksheets/sheet1.xml"/>
  <Relationship Id="rId2" Type="http://schemas.openxmlformats.org/officeDocument/2006/relationships/styles" Target="styles.xml"/>
  <Relationship Id="rId3" Type="http://schemas.openxmlformats.org/officeDocument/2006/relationships/theme" Target="theme/theme1.xml"/>
  <Relationship Id="rId4" Type="http://schemas.openxmlformats.org/officeDocument/2006/relationships/sharedStrings" Target="sharedStrings.xml"/>
</Relationships>"#;

pub const XLSX_SHEET: &'static str = r#"<?xml version="1.0" encoding="UTF-8" standalone="yes"?>
<worksheet xmlns="http://schemas.openxmlformats.org/spreadsheetml/2006/main">
  <sheetViews>
    <sheetView tabSelected="1" workbookViewId="0"/>
  </sheetViews>
  <sheetFormatPr defaultRowHeight="15"/>
  <cols>
    <col min="1" max="16" width="15" customWidth="1"/>
  </cols>
  <sheetData>
    <row r="1">
      <c r="A1" t="s"><v>0</v></c>
    </row>
  </sheetData>
  <autoFilter ref="A1:A1"/>
</worksheet>"#;

pub const XLSX_STYLES: &'static str = r#"<?xml version="1.0" encoding="UTF-8" standalone="yes"?>
<styleSheet xmlns="http://schemas.openxmlformats.org/spreadsheetml/2006/main">
  <fonts count="2">
    <font><sz val="11"/><name val="Calibri"/></font>
    <font><b/><sz val="11"/><color rgb="FFFFFFFF"/><name val="Calibri"/></font>
  </fonts>
  <fills count="3">
    <fill><patternFill patternType="none"/></fill>
    <fill><patternFill patternType="gray125"/></fill>
    <fill><patternFill><fgColor rgb="FF4472C4"/></patternFill></fill>
  </fills>
  <borders count="2">
    <border><left/><right/><top/><bottom/><diagonal/></border>
    <border><left style="thin"><color auto="1"/></left><right style="thin"><color auto="1"/></right><top style="thin"><color auto="1"/></top><bottom style="thin"><color auto="1"/></bottom><diagonal/></border>
  </borders>
  <cellStyleXfs count="1"><xf numFmtId="0" fontId="0" fillId="0" borderId="0"/></cellStyleXfs>
  <cellXfs count="2">
    <xf numFmtId="0" fontId="0" fillId="0" borderId="0" xfId="0"/>
    <xf numFmtId="0" fontId="1" fillId="2" borderId="1" xfId="0" applyFont="1" applyFill="1" applyBorder="1"/>
  </cellXfs>
</styleSheet>"#;

pub const XLSX_SS: &'static str = r#"<?xml version="1.0" encoding="UTF-8" standalone="yes"?>
<sst xmlns="http://schemas.openxmlformats.org/spreadsheetml/2006/main" count="1" uniqueCount="1">
  <si><t>{{DATA}}</t></si>
</sst>"#;

pub const XLSX_THEME: &'static str = r#"<?xml version="1.0" encoding="UTF-8" standalone="yes"?>
<a:theme xmlns:a="http://schemas.openxmlformats.org/drawingml/2006/main" name="Office Theme">
  <a:themeElements>
    <a:clrScheme name="Office">
      <a:dk1><a:srgbClr val="000000"/></a:dk1>
      <a:lt1><a:srgbClr val="FFFFFF"/></a:lt1>
      <a:dk2><a:srgbClr val="44546A"/></a:dk2>
      <a:lt2><a:srgbClr val="E7E6E6"/></a:lt2>
      <a:accent1><a:srgbClr val="4472C4"/></a:accent1>
      <a:accent2><a:srgbClr val="ED7D31"/></a:accent2>
      <a:accent3><a:srgbClr val="A5A5A5"/></a:accent3>
      <a:accent4><a:srgbClr val="FFC000"/></a:accent4>
      <a:accent5><a:srgbClr val="5B9BD5"/></a:accent5>
      <a:accent6><a:srgbClr val="70AD47"/></a:accent6>
      <a:hlink><a:srgbClr val="0563C1"/></a:hlink>
      <a:folHlink><a:srgbClr val="954F72"/></a:folHlink>
    </a:clrScheme>
  </a:themeElements>
</a:theme>"#;

pub const DOCX_CONTENT_TYPES: &'static str = r#"<?xml version="1.0" encoding="UTF-8" standalone="yes"?>
<Types xmlns="http://schemas.openxmlformats.org/package/2006/content-types">
  <Default Extension="rels" ContentType="application/vnd.openxmlformats-package.relationships+xml"/>
  <Default Extension="xml" ContentType="application/xml"/>
  <Override PartName="/word/document.xml" ContentType="application/vnd.openxmlformats-officedocument.wordprocessingml.document.main+xml"/>
  <Override PartName="/word/styles.xml" ContentType="application/vnd.openxmlformats-officedocument.wordprocessingml.styles+xml"/>
  <Override PartName="/word/theme/theme1.xml" ContentType="application/vnd.openxmlformats-officedocument.theme+xml"/>
  <Override PartName="/word/settings.xml" ContentType="application/vnd.openxmlformats-officedocument.wordprocessingml.settings+xml"/>
  <Override PartName="/word/fontTable.xml" ContentType="application/vnd.openxmlformats-officedocument.wordprocessingml.fontTable+xml"/>
</Types>"#;

pub const DOCX_RELS: &'static str = r#"<?xml version="1.0" encoding="UTF-8" standalone="yes"?>
<Relationships xmlns="http://schemas.openxmlformats.org/package/2006/relationships">
  <Relationship Id="rId1" Type="http://schemas.openxmlformats.org/officeDocument/2006/relationships/officeDocument" Target="word/document.xml"/>
</Relationships>"#;

pub const DOCX_DOC: &'static str = r#"<?xml version="1.0" encoding="UTF-8" standalone="yes"?>
<w:document xmlns:w="http://schemas.openxmlformats.org/wordprocessingml/2006/main"
            xmlns:r="http://schemas.openxmlformats.org/officeDocument/2006/relationships"
            xmlns:wp="http://schemas.openxmlformats.org/drawingml/2006/wordprocessingDrawing">
  <w:body>
    <w:p>
      <w:pPr><w:jc w:val="center"/></w:pPr>
      <w:r><w:rPr><w:b/><w:sz w:val="56"/><w:color w:val="1F3864"/></w:rPr><w:t>{{TITLE}}</w:t></w:r>
    </w:p>
    <w:p><w:r><w:t>{{CONTENT}}</w:t></w:r></w:p>
    <w:sectPr>
      <w:pgSz w:w="12240" w:h="15840"/>
      <w:pgMar w:top="1440" w:right="1440" w:bottom="1440" w:left="1440" w:header="720" w:footer="720"/>
    </w:sectPr>
  </w:body>
</w:document>"#;

pub const DOCX_DOC_RELS: &'static str = r#"<?xml version="1.0" encoding="UTF-8" standalone="yes"?>
<Relationships xmlns="http://schemas.openxmlformats.org/package/2006/relationships">
  <Relationship Id="rId1" Type="http://schemas.openxmlformats.org/officeDocument/2006/relationships/styles" Target="styles.xml"/>
  <Relationship Id="rId2" Type="http://schemas.openxmlformats.org/officeDocument/2006/relationships/theme" Target="theme/theme1.xml"/>
  <Relationship Id="rId3" Type="http://schemas.openxmlformats.org/officeDocument/2006/relationships/settings" Target="settings.xml"/>
  <Relationship Id="rId4" Type="http://schemas.openxmlformats.org/officeDocument/2006/relationships/fontTable" Target="fontTable.xml"/>
</Relationships>"#;

pub const DOCX_STYLES: &'static str = r#"<?xml version="1.0" encoding="UTF-8" standalone="yes"?>
<w:styles xmlns:w="http://schemas.openxmlformats.org/wordprocessingml/2006/main">
  <w:style w:type="paragraph" w:default="1" w:styleId="Normal">
    <w:name w:val="Normal"/>
    <w:pPr><w:spacing w:after="120" w:line="276" w:lineRule="auto"/></w:pPr>
    <w:rPr><w:rFonts w:ascii="Calibri" w:hAnsi="Calibri"/><w:sz w:val="22"/></w:rPr>
  </w:style>
  <w:style w:type="paragraph" w:styleId="Heading1">
    <w:name w:val="heading 1"/>
    <w:pPr><w:spacing w:before="480" w:after="240"/></w:pPr>
    <w:rPr><w:b/><w:color w:val="1F3864"/><w:sz w:val="36"/><w:rFonts w:ascii="Calibri" w:hAnsi="Calibri"/></w:rPr>
  </w:style>
</w:styles>"#;

pub const DOCX_THEME: &'static str = r#"<?xml version="1.0" encoding="UTF-8" standalone="yes"?>
<a:theme xmlns:a="http://schemas.openxmlformats.org/drawingml/2006/main" name="Office Theme">
  <a:themeElements>
    <a:clrScheme name="Office">
      <a:dk1><a:srgbClr val="000000"/></a:dk1>
      <a:lt1><a:srgbClr val="FFFFFF"/></a:lt1>
      <a:dk2><a:srgbClr val="44546A"/></a:dk2>
      <a:lt2><a:srgbClr val="E7E6E6"/></a:lt2>
      <a:accent1><a:srgbClr val="4472C4"/></a:accent1>
      <a:accent2><a:srgbClr val="ED7D31"/></a:accent2>
      <a:accent3><a:srgbClr val="A5A5A5"/></a:accent3>
      <a:accent4><a:srgbClr val="FFC000"/></a:accent4>
      <a:accent5><a:srgbClr val="5B9BD5"/></a:accent5>
      <a:accent6><a:srgbClr val="70AD47"/></a:accent6>
      <a:hlink><a:srgbClr val="0563C1"/></a:hlink>
      <a:folHlink><a:srgbClr val="954F72"/></a:folHlink>
    </a:clrScheme>
  </a:themeElements>
</a:theme>"#;

pub const DOCX_SETTINGS: &'static str = r#"<?xml version="1.0" encoding="UTF-8" standalone="yes"?>
<w:settings xmlns:w="http://schemas.openxmlformats.org/wordprocessingml/2006/main">
  <w:zoom w:percent="100"/>
  <w:defaultTabStop w:val="720"/>
</w:settings>"#;

pub const DOCX_FONT_TABLE: &'static str = r#"<?xml version="1.0" encoding="UTF-8" standalone="yes"?>
<w:fonts xmlns:w="http://schemas.openxmlformats.org/wordprocessingml/2006/main">
  <w:font w:name="Calibri"><w:panose1 w:val="020F0502020204030204"/><w:charset w:val="00"/></w:font>
</w:fonts>"#;

pub const PPTX_CONTENT_TYPES: &'static str = r#"<?xml version="1.0" encoding="UTF-8" standalone="yes"?>
<Types xmlns="http://schemas.openxmlformats.org/package/2006/content-types">
  <Default Extension="rels" ContentType="application/vnd.openxmlformats-package.relationships+xml"/>
  <Default Extension="xml" ContentType="application/xml"/>
  <Override PartName="/ppt/presentation.xml" ContentType="application/vnd.openxmlformats-officedocument.presentationml.presentation.main+xml"/>
  <Override PartName="/ppt/slides/slide1.xml" ContentType="application/vnd.openxmlformats-officedocument.presentationml.slide+xml"/>
  <Override PartName="/ppt/slideMasters/slideMaster1.xml" ContentType="application/vnd.openxmlformats-officedocument.presentationml.slideMaster+xml"/>
  <Override PartName="/ppt/slideLayouts/slideLayout1.xml" ContentType="application/vnd.openxmlformats-officedocument.presentationml.slideLayout+xml"/>
  <Override PartName="/ppt/theme/theme1.xml" ContentType="application/vnd.openxmlformats-officedocument.theme+xml"/>
  <Override PartName="/ppt/presProps.xml" ContentType="application/vnd.openxmlformats-officedocument.presentationml.presProps+xml"/>
  <Override PartName="/ppt/tableStyles.xml" ContentType="application/vnd.openxmlformats-officedocument.presentationml.tableStyles+xml"/>
  <Override PartName="/ppt/viewProps.xml" ContentType="application/vnd.openxmlformats-officedocument.presentationml.viewProps+xml"/>
</Types>"#;

pub const PPTX_RELS: &'static str = r#"<?xml version="1.0" encoding="UTF-8" standalone="yes"?>
<Relationships xmlns="http://schemas.openxmlformats.org/package/2006/relationships">
  <Relationship Id="rId1" Type="http://schemas.openxmlformats.org/officeDocument/2006/relationships/officeDocument" Target="ppt/presentation.xml"/>
</Relationships>"#;

pub const PPTX_PRES: &'static str = r#"<?xml version="1.0" encoding="UTF-8" standalone="yes"?>
<p:presentation xmlns:p="http://schemas.openxmlformats.org/presentationml/2006/main"
                xmlns:a="http://schemas.openxmlformats.org/drawingml/2006/main"
                xmlns:r="http://schemas.openxmlformats.org/officeDocument/2006/relationshps">
  <p:sldMasterIdLst><p:sldMasterId id="2147483648" r:id="rId1"/></p:sldMasterIdLst>
  <p:sldIdLst><p:sldId id="256" r:id="rId2"/></p:sldIdLst>
  <p:sldSz cx="9144000" cy="6858000"/>
  <p:notesSz cx="6858000" cy="9144000"/>
</p:presentation>"#;

pub const PPTX_PRES_RELS: &'static str = r#"<?xml version="1.0" encoding="UTF-8" standalone="yes"?>
<Relationships xmlns="http://schemas.openxmlformats.org/package/2006/relationships">
  <Relationship Id="rId1" Type="http://schemas.openxmlformats.org/officeDocument/2006/relationships/slideMaster" Target="slideMasters/slideMaster1.xml"/>
  <Relationship Id="rId2" Type="http://schemas.openxmlformats.org/officeDocument/2006/relationships/slide" Target="slides/slide1.xml"/>
  <Relationship Id="rId3" Type="http://schemas.openxmlformats.org/officeDocument/2006/relationships/presProps" Target="presProps.xml"/>
  <Relationship Id="rId4" Type="http://schemas.openxmlformats.org/officeDocument/2006/relationships/tableStyles" Target="tableStyles.xml"/>
  <Relationship Id="rId5" Type="http://schemas.openxmlformats.org/officeDocument/2006/relationships/viewProps" Target="viewProps.xml"/>
  <Relationship Id="rId6" Type="http://schemas.openxmlformats.org/officeDocument/2006/relationships/theme" Target="theme/theme1.xml"/>
</Relationships>"#;

pub const PPTX_SLIDE: &'static str = r#"<?xml version="1.0" encoding="UTF-8" standalone="yes"?>
<p:sld xmlns:p="http://schemas.openxmlformats.org/presentationml/2006/main"
       xmlns:a="http://schemas.openxmlformats.org/drawingml/2006/main"
       xmlns:r="http://schemas.openxmlformats.org/officeDocument/2006/relationships">
  <p:cSld>
    <p:spTree>
      <p:nvGrpSpPr><p:nvPr/><p:cNvPr id="1" name=""/><p:nvGrpSpPr/></p:nvGrpSpPr>
      <p:grpSpPr/>
      <p:sp>
        <p:nvSpPr><p:cNvPr id="2" name="Title"/><p:cNvSpPr><a:spLocks noGrp="1"/></p:cNvSpPr><p:nvPr/></p:nvSpPr>
        <p:spPr><a:xfrm><a:off x="457200" y="457200"/><a:ext cx="8229600" cy="1371600"/></a:xfrm></p:spPr>
        <p:txBody>
          <a:bodyPr/>
          <a:p><a:r><a:rPr lang="en-US" sz="4400" b="1" solidFill="1F3864"/><a:t>{{TITLE}}</a:t></a:r></a:p>
        </p:txBody>
      </p:sp>
      <p:sp>
        <p:nvSpPr><p:cNvPr id="3" name="Content"/><p:cNvSpPr><a:spLocks noGrp="1"/></p:cNvSpPr><p:nvPr/></p:nvSpPr>
        <p:spPr><a:xfrm><a:off x="457200" y="1828800"/><a:ext cx="8229600 cy="4572000"/></a:xfrm></p:spPr>
        <p:txBody>
          <a:bodyPr/>
          <a:p><a:r><a:rPr lang="en-US" sz="1800"/><a:t>{{CONTENT}}</a:t></a:r></a:p>
        </p:txBody>
      </p:sp>
    </p:spTree>
  </p:cSld>
  <p:clrMapOvr><a:masterClrMapping/></p:clrMapOvr>
</p:sld>"#;

pub const PPTX_SLIDE_RELS: &'static str = r#"<?xml version="1.0" encoding="UTF-8" standalone="yes"?>
<Relationships xmlns="http://schemas.openxmlformats.org/package/2006/relationships">
  <Relationship Id="rId1" Type="http://schemas.openxmlformats.org/officeDocument/2006/relationships/slideLayout" Target="../slideLayouts/slideLayout1.xml"/>
</Relationships>"#;

pub const PPTX_MASTER: &'static str = r#"<?xml version="1.0" encoding="UTF-8" standalone="yes"?>
<p:sldMaster xmlns:p="http://schemas.openxmlformats.org/presentationml/2006/main"
             xmlns:a="http://schemas.openxmlformats.org/drawingml/2006/main"
             xmlns:r="http://schemas.openxmlformats.org/officeDocument/2006/relationships">
  <p:cSld><p:spTree><p:nvGrpSpPr><p:nvPr/><p:cNvPr id="1" name=""/><p:nvGrpSpPr/></p:nvGrpSpPr><p:grpSpPr/></p:spTree></p:cSld>
  <p:clrMap bg1="lt1" tx1="dk1" bg2="lt2" tx2="dk2" accent1="accent1" accent2="accent2" accent3="accent3" accent4="accent4" accent5="accent5" accent6="accent6" hlink="hlink" folHlink="folHlink"/>
</p:sldMaster>"#;

pub const PPTX_LAYOUT: &'static str = r#"<?xml version="1.0" encoding="UTF-8" standalone="yes"?>
<p:sldLayout xmlns:p="http://schemas.openxmlformats.org/presentationml/2006/main"
             xmlns:a="http://schemas.openxmlformats.org/drawingml/2006/main"
             xmlns:r="http://schemas.openxmlformats.org/officeDocument/2006/relationships"
             type="blank">
  <p:cSld><p:spTree><p:nvGrpSpPr><p:nvPr/><p:cNvPr id="1" name=""/><p:nvGrpSpPr/></p:nvGrpSpPr><p:grpSpPr/></p:spTree></p:cSld>
</p:sldLayout>"#;

pub const PPTX_THEME: &'static str = r#"<?xml version="1.0" encoding="UTF-8" standalone="yes"?">
<a:theme xmlns:a="http://schemas.openxmlformats.org/drawingml/2006/main" name="Office Theme">
  <a:themeElements>
    <a:clrScheme name="Office">
      <a:dk1><a:srgbClr val="000000"/></a:dk1>
      <a:lt1><a:srgbClr val="FFFFFF"/></a:lt1>
      <a:dk2><a:srgbClr val="44546A"/></a:dk2>
      <a:lt2><a:srgbClr val="E7E6E6"/></a:lt2>
      <a:accent1><a:srgbClr val="4472C4"/></a:accent1>
      <a:accent2><a:srgbClr val="ED7D31"/></a:accent2>
      <a:accent3><a:srgbClr val="A5A5A5"/></a:accent3>
      <a:accent4><a:srgbClr val="FFC000"/></a:accent4>
      <a:accent5><a:srgbClr val="5B9BD5"/></a:accent5>
      <a:accent6><a:srgbClr val="70AD47"/></a:accent6>
      <a:hlink><a:srgbClr val="0563C1"/></a:hlink>
      <a:folHlink><a:srgbClr val="954F72"/></a:folHlink>
    </a:clrScheme>
  </a:themeElements>
</a:theme>"#;

pub const PPTX_PRES_PROPS: &'static str = r#"<?xml version="1.0" encoding="UTF-8" standalone="yes"?>
<p:presProps xmlns:p="http://schemas.openxmlformats.org/presentationml/2006/main"/>
"#;

pub const PPTX_TABLE_STYLES: &'static str = r#"<?xml version="1.0" encoding="UTF-8" standalone="yes"?>
<a:tblStyleLst xmlns:a="http://schemas.openxmlformats.org/drawingml/2006/main" def="{5C22544A-7EE6-4342-B048-85BDC9FD1C3A}"/>
"#;

pub const PPTX_VIEW_PROPS: &'static str = r#"<?xml version="1.0" encoding="UTF-8" standalone="yes"?>
<p:viewPr xmlns:p="http://schemas.openxmlformats.org/presentationml/2006/main">
  <p:slideViewPr><p:cSldViewPr><p:cViewPr varScale="1"/></p:cSldViewPr></p:slideViewPr>
  <p:notesTextViewPr><p:cViewPr/></p:notesTextViewPr>
</p:viewPr>"#;

// ---------------------------------------------------------------------------
// Packages
// ---------------------------------------------------------------------------

/// The blank package of a format: its directory entries and its parts
/// (name and XML text), in the order they are written; `None` for a
/// format other than `xlsx`, `docx` and `pptx`.
pub open spec fn blank_package(format: Seq<char>) -> Option<(Seq<Seq<char>>, Seq<(Seq<char>, Seq<char>)>)> {
    if format == "xlsx"@ {
        Some((
            seq!["_rels"@, "xl"@, "xl/_rels"@, "xl/worksheets"@, "xl/theme"@],
            seq![
            ("[Content_Types].xml"@, XLSX_CONTENT_TYPES@),
            ("_rels/.rels"@, XLSX_RELS@),
            ("xl/workbook.xml"@, XLSX_WB@),
            ("xl/_rels/workbook.xml.rels"@, XLSX_WB_RELS@),
            ("xl/worksheets/sheet1.xml"@, XLSX_SHEET@),
            ("xl/styles.xml"@, XLSX_STYLES@),
            ("xl/sharedStrings.xml"@, XLSX_SS@),
            ("xl/theme/theme1.xml"@, XLSX_THEME@),
            ],
        ))
    } else if format == "docx"@ {
        Some((
            seq!["_rels"@, "word"@, "word/_rels"@, "word/theme"@],
            seq![
            ("[Content_Types].xml"@, DOCX_CONTENT_TYPES@),
            ("_rels/.rels"@, DOCX_RELS@),
            ("word/document.xml"@, DOCX_DOC@),
            ("word/_rels/document.xml.rels"@, DOCX_DOC_RELS@),
            ("word/styles.xml"@, DOCX_STYLES@),
            ("word/theme/theme1.xml"@, DOCX_THEME@),
            ("word/settings.xml"@, DOCX_SETTINGS@),
            ("word/fontTable.xml"@, DOCX_FONT_TABLE@),
            ],
        ))
    } else if format == "pptx"@ {
        Some((
            seq!["_rels"@, "ppt"@, "ppt/_rels"@, "ppt/slides"@, "ppt/slides/_rels"@, "ppt/slideMasters"@, "ppt/slideLayouts"@, "ppt/theme"@],
            seq![
            ("[Content_Types].xml"@, PPTX_CONTENT_TYPES@),
            ("_rels/.rels"@, PPTX_RELS@),
            ("ppt/presentation.xml"@, PPTX_PRES@),
            ("ppt/_rels/presentation.xml.rels"@, PPTX_PRES_RELS@),
            ("ppt/slides/slide1.xml"@, PPTX_SLIDE@),
            ("ppt/slides/_rels/slide1.xml.rels"@, PPTX_SLIDE_RELS@),
            ("ppt/slideMasters/slideMaster1.xml"@, PPTX_MASTER@),
            ("ppt/slideLayouts/slideLayout1.xml"@, PPTX_LAYOUT@),
            ("ppt/theme/theme1.xml"@, PPTX_THEME@),
            ("ppt/presProps.xml"@, PPTX_PRES_PROPS@),
            ("ppt/tableStyles.xml"@, PPTX_TABLE_STYLES@),
            ("ppt/viewProps.xml"@, PPTX_VIEW_PROPS@),
            ],
        ))
    } else {
        None
    }
}

pub open spec fn names_of(v: Seq<String>) -> Seq<Seq<char>> {
    v.map_values(|s: String| s@)
}

pub open spec fn texts_of(v: Seq<(String, String)>) -> Seq<(Seq<char>, Seq<char>)> {
    v.map_values(|p: (String, String)| (p.0@, p.1@))
}

fn add_part(parts: &mut Vec<(String, String)>, name: &str, text: &str)
    ensures
        texts_of(final(parts)@) == texts_of(old(parts)@).push((name@, text@)),
{
    parts.push((name.to_owned(), text.to_owned()));
    proof {
        assert(texts_of(final(parts)@) =~= texts_of(old(parts)@).push((name@, text@)));
    }
}

fn add_dir(dirs: &mut Vec<String>, name: &str)
    ensures
        names_of(final(dirs)@) == names_of(old(dirs)@).push(name@),
{
    dirs.push(name.to_owned());
    proof {
        assert(names_of(final(dirs)@) =~= names_of(old(dirs)@).push(name@));
    }
}

/// The directory entries and parts of the blank package of a format.
pub fn template_package(format: &str) -> (r: Option<(Vec<String>, Vec<(String, String)>)>)
    ensures
        match blank_package(format@) {
            Some(p) => r matches Some(q) && names_of(q.0@) == p.0 && texts_of(q.1@) == p.1,
            None => r is None,
        },
{
    let mut dirs: Vec<String> = Vec::new();
    let mut parts: Vec<(String, String)> = Vec::new();
    proof {
        assert(names_of(dirs@) =~= Seq::<Seq<char>>::empty());
        assert(texts_of(parts@) =~= Seq::<(Seq<char>, Seq<char>)>::empty());
    }
    if crate::text::str_eq(format, "xlsx") {
        add_dir(&mut dirs, "_rels");
        add_dir(&mut dirs, "xl");
        add_dir(&mut dirs, "xl/_rels");
        add_dir(&mut dirs, "xl/worksheets");
        add_dir(&mut dirs, "xl/theme");
        add_part(&mut parts, "[Content_Types].xml", XLSX_CONTENT_TYPES);
        add_part(&mut parts, "_rels/.rels", XLSX_RELS);
        add_part(&mut parts, "xl/workbook.xml", XLSX_WB);
        add_part(&mut parts, "xl/_rels/workbook.xml.rels", XLSX_WB_RELS);
        add_part(&mut parts, "xl/worksheets/sheet1.xml", XLSX_SHEET);
        add_part(&mut parts, "xl/styles.xml", XLSX_STYLES);
        add_part(&mut parts, "xl/sharedStrings.xml", XLSX_SS);
        add_part(&mut parts, "xl/theme/theme1.xml", XLSX_THEME);
        proof {
            assert(names_of(dirs@) =~= blank_package(format@).unwrap().0);
            assert(texts_of(parts@) =~= blank_package(format@).unwrap().1);
        }
    } else if crate::text::str_eq(format, "docx") {
        add_dir(&mut dirs, "_rels");
        add_dir(&mut dirs, "word");
        add_dir(&mut dirs, "word/_rels");
        add_dir(&mut dirs, "word/theme");
        add_part(&mut parts, "[Content_Types].xml", DOCX_CONTENT_TYPES);
        add_part(&mut parts, "_rels/.rels", DOCX_RELS);
        add_part(&mut parts, "word/document.xml", DOCX_DOC);
        add_part(&mut parts, "word/_rels/document.xml.rels", DOCX_DOC_RELS);
        add_part(&mut parts, "word/styles.xml", DOCX_STYLES);
        add_part(&mut parts, "word/theme/theme1.xml", DOCX_THEME);
        add_part(&mut parts, "word/settings.xml", DOCX_SETTINGS);
        add_part(&mut parts, "word/fontTable.xml", DOCX_FONT_TABLE);
        proof {
            assert(names_of(dirs@) =~= blank_package(format@).unwrap().0);
            assert(texts_of(parts@) =~= blank_package(format@).unwrap().1);
        }
    } else if crate::text::str_eq(format, "pptx") {
        add_dir(&mut dirs, "_rels");
        add_dir(&mut dirs, "ppt");
        add_dir(&mut dirs, "ppt/_rels");
        add_dir(&mut dirs, "ppt/slides");
        add_dir(&mut dirs, "ppt/slides/_rels");
        add_dir(&mut dirs, "ppt/slideMasters");
        add_dir(&mut dirs, "ppt/slideLayouts");
        add_dir(&mut dirs, "ppt/theme");
        add_part(&mut parts, "[Content_Types].xml", PPTX_CONTENT_TYPES);
        add_part(&mut parts, "_rels/.rels", PPTX_RELS);
        add_part(&mut parts, "ppt/presentation.xml", PPTX_PRES);
        add_part(&mut parts, "ppt/_rels/presentation.xml.rels", PPTX_PRES_RELS);
        add_part(&mut parts, "ppt/slides/slide1.xml", PPTX_SLIDE);
        add_part(&mut parts, "ppt/slides/_rels/slide1.xml.rels", PPTX_SLIDE_RELS);
        add_part(&mut parts, "ppt/slideMasters/slideMaster1.xml", PPTX_MASTER);
        add_part(&mut parts, "ppt/slideLayouts/slideLayout1.xml", PPTX_LAYOUT);
        add_part(&mut parts, "ppt/theme/theme1.xml", PPTX_THEME);
        add_part(&mut parts, "ppt/presProps.xml", PPTX_PRES_PROPS);
        add_part(&mut parts, "ppt/tableStyles.xml", PPTX_TABLE_STYLES);
        add_part(&mut parts, "ppt/viewProps.xml", PPTX_VIEW_PROPS);
        proof {
            assert(names_of(dirs@) =~= blank_package(format@).unwrap().0);
            assert(texts_of(parts@) =~= blank_package(format@).unwrap().1);
        }
    } else {
        return None;
    }
    Some((dirs, parts))
}

/// The name a directory entry is stored under: the name with a `/`
/// appended unless it ends with `/` or `\\`.
pub open spec fn dir_entry_name(d: Seq<char>) -> Seq<char> {
    if d.len() > 0 && (d.last() == '/' || d.last() == '\\') {
        d
    } else {
        d + "/"@
    }
}

/// The entries of a package as read back: each directory (stored name,
/// no content), then each part (name, UTF-8 bytes of its text).
pub open spec fn package_entries(dirs: Seq<Seq<char>>, parts: Seq<(Seq<char>, Seq<char>)>) -> Seq<(Seq<char>, Seq<u8>)> {
    dirs.map_values(|d: Seq<char>| (dir_entry_name(d), Seq::<u8>::empty()))
        + parts.map_values(|p: (Seq<char>, Seq<char>)| (p.0, vstd::utf8::encode_utf8(p.1)))
}

/// The entry names are distinct and short (under 16384 characters), and
/// there are fewer than 65535 entries.
pub open spec fn names_writable(dirs: Seq<Seq<char>>, parts: Seq<(Seq<char>, Seq<char>)>) -> bool {
    let es = package_entries(dirs, parts);
    &&& es.len() < 65535
    &&& forall|i: int, j: int| 0 <= i < j < es.len() ==> #[trigger] es[i].0 != #[trigger] es[j].0
    &&& forall|i: int| 0 <= i < es.len() ==> (#[trigger] es[i]).0.len() < 16384
}

/// Reading `data` as a ZIP archive gives exactly the entries `es`.
pub open spec fn reads_back(data: Seq<u8>, es: Seq<(Seq<char>, Seq<u8>)>) -> bool {
    zip_read(data) == Ok::<Seq<(Seq<char>, Seq<u8>)>, (bool, Seq<char>)>(es)
}

/// Every part's text is under 2^30 characters, so under 4 GiB once encoded.
pub open spec fn parts_fit(parts: Seq<(Seq<char>, Seq<char>)>) -> bool {
    forall|i: int| 0 <= i < parts.len() ==> (#[trigger] parts[i]).1.len() < 0x4000_0000
}

/// Writes a package with `zip::ZipWriter` into memory: the directory
/// entries, then each part deflated, in order.  Trusted: where the names
/// are distinct and short and the parts fit without ZIP64, the writer
/// reports no error and reading the bytes back with `zip::ZipArchive`
/// gives the entries written, in order.  The bytes themselves are not
/// claimed: the writer stamps each entry with the current time.
#[verifier::external_body]
fn zip_package(dirs: &Vec<String>, parts: &Vec<(String, String)>) -> (r: Vec<u8>)
    ensures
        names_writable(names_of(dirs@), texts_of(parts@)) && parts_fit(texts_of(parts@))
            ==> reads_back(r@, package_entries(names_of(dirs@), texts_of(parts@))),
{
    let mut zip = zip::ZipWriter::new(std::io::Cursor::new(Vec::new()));
    let opts = zip::write::SimpleFileOptions::default().compression_method(zip::CompressionMethod::Deflated);
    for d in dirs.iter() {
        let _ = zip.add_directory(d.as_str(), opts);
    }
    for (name, text) in parts.iter() {
        let _ = zip.start_file(name.as_str(), opts);
        let _ = std::io::Write::write_all(&mut zip, text.as_bytes());
    }
    match zip.finish() { Ok(c) => c.into_inner(), Err(_) => Vec::new() }
}

/// The entry names of each blank package are distinct and short.
#[verifier::rlimit(100)]
proof fn lemma_blank_names_writable(format: Seq<char>)
    requires
        blank_package(format) is Some,
    ensures
        names_writable(blank_package(format).unwrap().0, blank_package(format).unwrap().1),
{
    reveal_strlit("/");
    reveal_strlit("xlsx");
    reveal_strlit("docx");
    reveal_strlit("pptx");
    reveal_strlit("_rels");
    reveal_strlit("xl");
    reveal_strlit("xl/_rels");
    reveal_strlit("xl/worksheets");
    reveal_strlit("xl/theme");
    reveal_strlit("word");
    reveal_strlit("word/_rels");
    reveal_strlit("word/theme");
    reveal_strlit("ppt");
    reveal_strlit("ppt/_rels");
    reveal_strlit("ppt/slides");
    reveal_strlit("ppt/slides/_rels");
    reveal_strlit("ppt/slideMasters");
    reveal_strlit("ppt/slideLayouts");
    reveal_strlit("ppt/theme");
    reveal_strlit("[Content_Types].xml");
    reveal_strlit("_rels/.rels");
    reveal_strlit("xl/workbook.xml");
    reveal_strlit("xl/_rels/workbook.xml.rels");
    reveal_strlit("xl/worksheets/sheet1.xml");
    reveal_strlit("xl/styles.xml");
    reveal_strlit("xl/sharedStrings.xml");
    reveal_strlit("xl/theme/theme1.xml");
    reveal_strlit("word/document.xml");
    reveal_strlit("word/_rels/document.xml.rels");
    reveal_strlit("word/styles.xml");
    reveal_strlit("word/theme/theme1.xml");
    reveal_strlit("word/settings.xml");
    reveal_strlit("word/fontTable.xml");
    reveal_strlit("ppt/presentation.xml");
    reveal_strlit("ppt/_rels/presentation.xml.rels");
    reveal_strlit("ppt/slides/slide1.xml");
    reveal_strlit("ppt/slides/_rels/slide1.xml.rels");
    reveal_strlit("ppt/slideMasters/slideMaster1.xml");
    reveal_strlit("ppt/slideLayouts/slideLayout1.xml");
    reveal_strlit("ppt/theme/theme1.xml");
    reveal_strlit("ppt/presProps.xml");
    reveal_strlit("ppt/tableStyles.xml");
    reveal_strlit("ppt/viewProps.xml");
    let p = blank_package(format).unwrap();
    let es = package_entries(p.0, p.1);
    assert forall|i: int, j: int| 0 <= i < j < es.len() implies #[trigger] es[i].0 != #[trigger] es[j].0 by {
        if es[i].0 == es[j].0 {
            assert(es[i].0.len() == es[j].0.len());
            assert(es[i].0[0] == es[j].0[0]);
            assert(es[i].0[1] == es[j].0[1]);
            assert(es[i].0[2] == es[j].0[2]);
            assert(es[i].0[3] == es[j].0[3]);
            assert(es[i].0[4] == es[j].0[4]);
            assert(es[i].0[5] == es[j].0[5]);
            assert(es[i].0[6] == es[j].0[6]);
            assert(es[i].0[7] == es[j].0[7]);
            assert(es[i].0[8] == es[j].0[8]);
            assert(es[i].0[9] == es[j].0[9]);
            assert(es[i].0[10] == es[j].0[10]);
            assert(es[i].0[11] == es[j].0[11]);
            assert(es[i].0[12] == es[j].0[12]);
            assert(es[i].0[13] == es[j].0[13]);
            assert(es[i].0[14] == es[j].0[14]);
            assert(es[i].0[15] == es[j].0[15]);
            assert(es[i].0[16] == es[j].0[16]);
            assert(es[i].0[17] == es[j].0[17]);
            assert(es[i].0[18] == es[j].0[18]);
            assert(es[i].0[19] == es[j].0[19]);
            assert(es[i].0[20] == es[j].0[20]);
            assert(es[i].0[21] == es[j].0[21]);
            assert(es[i].0[22] == es[j].0[22]);
            assert(es[i].0[23] == es[j].0[23]);
        }
    }
}

/// The blank package of a skill's format as ZIP bytes: read back, its
/// entries are the package's directories and parts in order (where every
/// part fits without ZIP64); empty for a format that has none.
pub fn generate_ooxml_template(format: &str) -> (r: Vec<u8>)
    ensures
        blank_package(format@) is None ==> r@.len() == 0,
        blank_package(format@) matches Some(p) ==> (parts_fit(p.1) ==> reads_back(r@, package_entries(p.0, p.1))),
{
    match template_package(format) {
        Some((dirs, parts)) => {
            proof {
                lemma_blank_names_writable(format@);
            }
            zip_package(&dirs, &parts)
        },
        None => Vec::new(),
    }
}

// ---------------------------------------------------------------------------
// Filling a template
// ---------------------------------------------------------------------------

/// Fills skill templates with parameters.
pub struct TemplateEngine {
    pub template_dir: String,
}

/// What `serde_json` makes of a JSON text when it reads it and writes it
/// back pretty-printed (empty when it does not read).
pub uninterp spec fn json_pretty(compact: Seq<char>) -> Seq<char>;

/// Reads a JSON text with `serde_json::from_str` and writes it back with
/// `serde_json::to_string_pretty`.  Trusted: the result is a function of
/// the text alone; empty where either step fails.
#[verifier::external_body]
fn pretty_json(compact: &str) -> (r: String)
    ensures
        r@ == json_pretty(compact@),
{
    serde_json::from_str::<serde_json::Value>(compact).ok().and_then(|v| serde_json::to_string_pretty(&v).ok()).unwrap_or_default()
}

/// What a parameter's value reads as in place of its placeholder: text as
/// it is, numbers and booleans as written, arrays and objects as
/// pretty-printed JSON, null as nothing.
pub open spec fn replacement_text(v: JsonValue) -> Seq<char> {
    match v {
        JsonValue::Str(s) => s@,
        JsonValue::Number(n) => number_text(n),
        JsonValue::Bool(b) => if b { "true"@ } else { "false"@ },
        JsonValue::Array(_) => json_pretty(json_text(v)),
        JsonValue::Object(_) => json_pretty(json_text(v)),
        JsonValue::Null => Seq::empty(),
    }
}

/// The placeholder of a parameter: its name upper-cased, in double braces.
pub open spec fn placeholder_of(key: Seq<char>) -> Seq<char> {
    "{{"@ + uppercase(key) + "}}"@
}

/// `text` with each parameter's placeholder replaced, parameter after
/// parameter.
pub open spec fn filled_text(text: Seq<char>, params: Seq<(String, JsonValue)>) -> Seq<char>
    decreases params.len(),
{
    if params.len() == 0 {
        text
    } else {
        replace_all(
            filled_text(text, params.drop_last()),
            placeholder_of(params.last().0@),
            replacement_text(params.last().1),
        )
    }
}

/// A template filled: each entry in order, its text (read leniently as
/// UTF-8) with the placeholders replaced; or the reading error, with the
/// message for an archive that does not open.
pub open spec fn filled_entries(
    template: Seq<u8>,
    params: Seq<(String, JsonValue)>,
) -> Result<Seq<(Seq<char>, Seq<u8>)>, Seq<char>> {
    match zip_read(template) {
        Ok(es) => Ok(Seq::new(es.len(), |i: int| (es[i].0, vstd::utf8::encode_utf8(filled_text(lossy_text(es[i].1), params))))),
        Err(e) => Err(if e.0 { "Failed to read template ZIP: "@ + e.1 } else { e.1 }),
    }
}

fn replacement_exec(v: &JsonValue) -> (r: String)
    ensures
        r@ == replacement_text(*v),
{
    match v {
        JsonValue::Str(s) => s.clone(),
        JsonValue::Number(n) => {
            let mut out = String::new();
            push_number(&mut out, n);
            out
        },
        JsonValue::Bool(b) => if *b { "true".to_owned() } else { "false".to_owned() },
        JsonValue::Array(_) => pretty_json(to_json_text(v).as_str()),
        JsonValue::Object(_) => pretty_json(to_json_text(v).as_str()),
        JsonValue::Null => String::new(),
    }
}

/// Entries a ZIP writer takes without error and without ZIP64: fewer than
/// 65535, names distinct and under 16384 characters, contents under 4 GiB.
pub open spec fn entries_writable(es: Seq<(Seq<char>, Seq<u8>)>) -> bool {
    &&& es.len() < 65535
    &&& forall|i: int, j: int| 0 <= i < j < es.len() ==> #[trigger] es[i].0 != #[trigger] es[j].0
    &&& forall|i: int| 0 <= i < es.len() ==> (#[trigger] es[i]).0.len() < 16384 && es[i].1.len() < 0xFFFF_FFFF
}

/// `r` is an archive that reads back as exactly `es`.
pub open spec fn written_as(r: Result<Vec<u8>, String>, es: Seq<(Seq<char>, Seq<u8>)>) -> bool {
    r matches Ok(z) && reads_back(z@, es)
}

/// Writes the parts with `zip::ZipWriter` into memory, each deflated, in
/// order.  Trusted: where the entries are writable (distinct short names,
/// contents without ZIP64), the writer reports no error and reading the
/// bytes back with `zip::ZipArchive` gives the entries, in order.  The bytes
/// themselves are not claimed: the writer stamps each entry with the
/// current time.
#[verifier::external_body]
fn zip_entries(entries: &Vec<(String, Vec<u8>)>) -> (r: Result<Vec<u8>, String>)
    ensures
        entries_writable(entries_view(entries@)) ==> written_as(r, entries_view(entries@)),
{
    let mut zip = zip::ZipWriter::new(std::io::Cursor::new(Vec::new()));
    let opts = zip::write::SimpleFileOptions::default().compression_method(zip::CompressionMethod::Deflated);
    for (name, data) in entries.iter() {
        zip.start_file(name.as_str(), opts).map_err(|e| e.to_string())?;
        std::io::Write::write_all(&mut zip, data).map_err(|e| e.to_string())?;
    }
    zip.finish().map(|c| c.into_inner()).map_err(|e| e.to_string())
}

impl TemplateEngine {
    pub fn new(template_dir: String) -> (r: TemplateEngine)
        ensures
            r.template_dir@ == template_dir@,
    {
        TemplateEngine { template_dir }
    }

    /// The bytes of a part with every parameter's `{{NAME}}` placeholder
    /// replaced by the parameter's value.
    pub fn replace_placeholders(&self, content: &[u8], params: &Vec<(String, JsonValue)>) -> (r: Vec<u8>)
        ensures
            r@ == vstd::utf8::encode_utf8(filled_text(lossy_text(content@), params@)),
    {
        let mut text = chars_of(utf8_lossy(content).as_str());
        let mut i: usize = 0;
        while i < params.len()
            invariant
                i <= params@.len(),
                text@ == filled_text(lossy_text(content@), params@.take(i as int)),
            decreases params@.len() - i,
        {
            proof {
                assert(params@.take(i + 1).drop_last() =~= params@.take(i as int));
                assert(params@.take(i + 1).last() == params@[i as int]);
            }
            let mut ph = String::new();
            push_str(&mut ph, "{{");
            push_str(&mut ph, to_uppercase(params[i].0.as_str()).as_str());
            push_str(&mut ph, "}}");
            let rep = replacement_exec(&params[i].1);
            text = replace_all_chars(&text, &chars_of(ph.as_str()), &chars_of(rep.as_str()));
            i = i + 1;
        }
        proof {
            assert(params@.take(params@.len() as int) =~= params@);
        }
        str_bytes(string_of(&text).as_str())
    }

    /// The parts of a template package with their placeholders filled, or
    /// why the package could not be read.
    pub fn fill_entries(&self, template_bytes: &[u8], params: &Vec<(String, JsonValue)>) -> (r: Result<Vec<(String, Vec<u8>)>, String>)
        ensures
            match filled_entries(template_bytes@, params@) {
                Ok(es) => r matches Ok(v) && entries_view(v@) == es,
                Err(m) => r matches Err(t) && t@ == m,
            },
    {
        match read_zip(template_bytes) {
            Ok(es) => {
                let ghost src = entries_view(es@);
                let mut out: Vec<(String, Vec<u8>)> = Vec::new();
                let mut i: usize = 0;
                while i < es.len()
                    invariant
                        i <= es@.len(),
                        src == entries_view(es@),
                        entries_view(out@) == Seq::new(i as nat, |k: int| (src[k].0, vstd::utf8::encode_utf8(filled_text(lossy_text(src[k].1), params@)))),
                    decreases es@.len() - i,
                {
                    let filled = self.replace_placeholders(es[i].1.as_slice(), params);
                    let ghost before = entries_view(out@);
                    let name = es[i].0.as_str().to_owned();
                    proof {
                        assert(src[i as int] == (es@[i as int].0@, es@[i as int].1@));
                    }
                    out.push((name, filled));
                    proof {
                        assert(name@ == src[i as int].0);
                        assert(filled@ == vstd::utf8::encode_utf8(filled_text(lossy_text(src[i as int].1), params@)));
                        assert(entries_view(out@) =~= before.push((src[i as int].0, vstd::utf8::encode_utf8(filled_text(lossy_text(src[i as int].1), params@)))));
                        assert(entries_view(out@) =~= Seq::new((i + 1) as nat, |k: int| (src[k].0, vstd::utf8::encode_utf8(filled_text(lossy_text(src[k].1), params@)))));
                    }
                    i = i + 1;
                }
                Ok(out)
            },
            Err((at_open, msg)) => {
                if at_open {
                    let mut m = String::new();
                    push_str(&mut m, "Failed to read template ZIP: ");
                    push_str(&mut m, msg.as_str());
                    Err(m)
                } else {
                    Err(msg)
                }
            },
        }
    }

    /// A template package filled with the parameters, as ZIP bytes: the
    /// parts of `fill_entries` written in order.
    pub fn fill_template(&self, template_bytes: &[u8], params: &Vec<(String, JsonValue)>) -> (r: Result<Vec<u8>, String>)
        ensures
            filled_entries(template_bytes@, params@) matches Err(m) ==> r matches Err(t) && t@ == m,
            filled_entries(template_bytes@, params@) matches Ok(es) ==> (entries_writable(es) ==> written_as(r, es)),
    {
        let entries = self.fill_entries(template_bytes, params)?;
        zip_entries(&entries)
    }

    /// What a skill run reports, output by output.
    pub fn build_output<'a>(&self, params: &'a Vec<(String, JsonValue)>, outputs: &Vec<String>) -> (r: Vec<(String, OutputValue<'a>)>)
        ensures
            r@.len() == outputs@.len(),
            forall|i: int| 0 <= i < r@.len() ==> (#[trigger] r@[i]).0@ == outputs@[i]@ && output_is(params@, outputs@[i]@, r@[i].1),
    {
        build_output(params, outputs)
    }

    /// The name of an output file: the skill's name with dots made
    /// underscores, the time in seconds, and the format as extension.
    pub fn create_output_name(skill_name: &str, secs: u64, format: &str) -> (r: String)
        ensures
            r@ == replace_all(skill_name@, "."@, "_"@) + "_"@ + decimal(secs as nat) + "."@ + format@,
    {
        let name = replace_all_chars(&chars_of(skill_name), &chars_of("."), &chars_of("_"));
        let mut r = string_of(&name);
        push_str(&mut r, "_");
        push_str(&mut r, u64_to_string(secs).as_str());
        push_str(&mut r, ".");
        push_str(&mut r, format);
        r
    }
}

} // verus!
