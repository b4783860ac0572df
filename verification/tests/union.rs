use boe_completo::documento::busca_tabla;
use boe_completo::objeto::busca;
use boe_completo::unir::repara_marcadores;
use boe_completo::unir::titulo_pagina;
use boe_completo::Documento;
use boe_completo::ErrorUnion;
use boe_completo::IdObjeto;
use boe_completo::Marcador;
use boe_completo::Objeto;
use boe_completo::unir_documentos;

fn id(num: u32, gen: u16) -> IdObjeto {
    IdObjeto { num, gen }
}

fn nombre(s: &str) -> Objeto {
    Objeto::Nombre(s.to_string())
}

fn entrada(k: &str, v: Objeto) -> (String, Objeto) {
    (k.to_string(), v)
}

fn documento_simple(extra_catalogo: Option<(String, Objeto)>) -> Documento {
    let mut catalogo = vec![
        entrada("Type", nombre("Catalog")),
        entrada("Pages", Objeto::Referencia(id(2, 0))),
    ];
    if let Some(e) = extra_catalogo {
        catalogo.push(e);
    }
    let paginas = vec![
        entrada("Type", nombre("Pages")),
        entrada("Kids", Objeto::Arreglo(vec![Objeto::Referencia(id(3, 0))])),
        entrada("Count", Objeto::Entero(1)),
    ];
    let pagina = vec![
        entrada("Type", nombre("Page")),
        entrada("Parent", Objeto::Referencia(id(2, 0))),
    ];
    Documento {
        objetos: vec![
            (id(1, 0), Objeto::Diccionario(catalogo)),
            (id(2, 0), Objeto::Diccionario(paginas)),
            (id(3, 0), Objeto::Diccionario(pagina)),
        ],
        cola: vec![entrada("Root", Objeto::Referencia(id(1, 0)))],
        orden_paginas: vec![id(3, 0)],
        marcadores: Vec::new(),
        max_id: 3,
        version: "1.5".to_string(),
    }
}

fn valor<'a>(d: &'a Vec<(String, Objeto)>, k: &str) -> Option<&'a Objeto> {
    busca(d, &k.to_string())
}

fn como_dic(o: &Objeto) -> &Vec<(String, Objeto)> {
    match o {
        Objeto::Diccionario(d) => d,
        _ => panic!("no es un diccionario"),
    }
}

fn es_ref(o: &Objeto, num: u32, gen: u16) -> bool {
    matches!(o, Objeto::Referencia(p) if p.num == num && p.gen == gen)
}

#[test]
fn union_vacia_devuelve_error_estructural() {
    let r = unir_documentos(Vec::new());
    match r {
        Err(e) => assert_eq!(e, ErrorUnion::SinRaizPaginas),
        Ok(_) => panic!("una lista vacia no puede unirse"),
    }
}

#[test]
fn sin_raiz_de_paginas_devuelve_error() {
    let mut d = documento_simple(None);
    d.objetos.remove(1);
    d.orden_paginas = Vec::new();
    let r = unir_documentos(vec![d]);
    match r {
        Err(e) => assert_eq!(e, ErrorUnion::SinRaizPaginas),
        Ok(_) => panic!("sin raiz de paginas no hay union"),
    }
}

#[test]
fn sin_catalogo_devuelve_error() {
    let mut d = documento_simple(None);
    d.objetos.remove(0);
    let r = unir_documentos(vec![d]);
    match r {
        Err(e) => assert_eq!(e, ErrorUnion::SinCatalogo),
        Ok(_) => panic!("sin catalogo no hay union"),
    }
}

#[test]
fn union_de_un_documento_conserva_su_estructura() {
    let d = documento_simple(None);
    let u = unir_documentos(vec![d]).unwrap();
    assert_eq!(u.paginas, 1);
    assert_eq!(u.marcadores, 1);
    assert_eq!(u.documento.orden_paginas.len(), 1);
    for (j, (p, _)) in u.documento.objetos.iter().enumerate() {
        assert_eq!(p.num as usize, j + 1);
    }
}

#[test]
fn union_de_dos_documentos_de_una_pagina() {
    let d1 = documento_simple(Some(entrada("Lang", nombre("es-ES"))));
    let d2 = documento_simple(Some(entrada("Lang", nombre("en-GB"))));
    let u = unir_documentos(vec![d1, d2]).unwrap();
    assert_eq!(u.paginas, 2);
    assert_eq!(u.marcadores, 2);

    let doc = &u.documento;
    let raiz = valor(&doc.cola, "Root").expect("la cola lleva la raiz");
    assert!(es_ref(raiz, 1, 0));

    let catalogo = como_dic(busca_tabla(&doc.objetos, id(1, 0)).expect("catalogo presente"));
    // Solo los atributos del primer catalogo sobreviven.
    match valor(catalogo, "Lang").expect("atributo del primero") {
        Objeto::Nombre(n) => assert_eq!(n, "es-ES"),
        _ => panic!("el atributo cambio de clase"),
    }
    let pages = valor(catalogo, "Pages").expect("el catalogo apunta a las paginas");
    assert!(es_ref(pages, 2, 0));

    let paginas = como_dic(busca_tabla(&doc.objetos, id(2, 0)).expect("raiz de paginas"));
    match valor(paginas, "Count").expect("cuenta recalculada") {
        Objeto::Entero(n) => assert_eq!(*n, 2),
        _ => panic!("la cuenta no es un entero"),
    }
    match valor(paginas, "Kids").expect("kids recalculados") {
        Objeto::Arreglo(ks) => {
            assert_eq!(ks.len(), 2);
            assert!(es_ref(&ks[0], 3, 0));
            assert!(es_ref(&ks[1], 4, 0));
        },
        _ => panic!("kids no es una lista"),
    }
    // Cada pagina cuelga de la raiz unida.
    for n in [3u32, 4u32] {
        let hoja = como_dic(busca_tabla(&doc.objetos, id(n, 0)).expect("pagina presente"));
        assert!(es_ref(valor(hoja, "Parent").expect("con padre"), 2, 0));
    }
    // El esquema: raiz tras la tabla y un marcador por documento.
    let esquema = valor(catalogo, "Outlines").expect("esquema enlazado");
    assert!(es_ref(esquema, 5, 0));
    let raiz_esquema = como_dic(busca_tabla(&doc.objetos, id(5, 0)).expect("raiz del esquema"));
    assert!(es_ref(valor(raiz_esquema, "First").expect("primero"), 6, 0));
    assert!(es_ref(valor(raiz_esquema, "Last").expect("ultimo"), 8, 0));
    let titulos: [&[u8]; 2] = [b"Page_1", b"Page_2"];
    let destinos = [3u32, 4u32];
    for k in 0..2usize {
        let item = como_dic(
            busca_tabla(&doc.objetos, id(6 + 2 * (k as u32), 0)).expect("entrada del esquema"),
        );
        match valor(item, "Title").expect("titulo") {
            Objeto::Cadena(t) => assert_eq!(&t[..], titulos[k]),
            _ => panic!("el titulo no es una cadena"),
        }
        let accion = como_dic(
            busca_tabla(&doc.objetos, id(7 + 2 * (k as u32), 0)).expect("accion del esquema"),
        );
        match valor(accion, "D").expect("destino") {
            Objeto::Arreglo(ds) => assert!(es_ref(&ds[0], destinos[k], 0)),
            _ => panic!("el destino no es una lista"),
        }
    }
    // Todos los identificadores finales son contiguos desde uno.
    for (j, (p, _)) in doc.objetos.iter().enumerate() {
        assert_eq!(p.num as usize, j + 1);
    }
    assert_eq!(doc.max_id as usize, doc.objetos.len());
}

#[test]
fn primer_escritor_gana_en_la_raiz_de_paginas() {
    let mut d1 = documento_simple(None);
    if let Objeto::Diccionario(dd) = &mut d1.objetos[1].1 {
        dd.push(entrada("Rotate", Objeto::Entero(90)));
    }
    let mut d2 = documento_simple(None);
    if let Objeto::Diccionario(dd) = &mut d2.objetos[1].1 {
        dd.push(entrada("Rotate", Objeto::Entero(180)));
        dd.push(entrada("Dur", Objeto::Entero(7)));
    }
    let u = unir_documentos(vec![d1, d2]).unwrap();
    let paginas = como_dic(busca_tabla(&u.documento.objetos, id(2, 0)).expect("raiz unida"));
    match valor(paginas, "Rotate").expect("campo del primero") {
        Objeto::Entero(n) => assert_eq!(*n, 90),
        _ => panic!("el campo cambio de clase"),
    }
    match valor(paginas, "Dur").expect("campo nuevo del segundo") {
        Objeto::Entero(n) => assert_eq!(*n, 7),
        _ => panic!("el campo cambio de clase"),
    }
}

#[test]
fn marcador_sin_destino_se_redirige_a_la_primera_pagina() {
    let pagina = vec![
        entrada("Type", nombre("Page")),
    ];
    let mut d = Documento {
        objetos: vec![(id(1, 0), Objeto::Diccionario(pagina))],
        cola: Vec::new(),
        orden_paginas: vec![id(1, 0)],
        marcadores: vec![
            Marcador { titulo: b"Page_1".to_vec(), destino: id(0, 0), nivel: 0 },
            Marcador { titulo: b"Page_2".to_vec(), destino: id(9, 9), nivel: 0 },
            Marcador { titulo: b"Page_3".to_vec(), destino: id(1, 0), nivel: 0 },
        ],
        max_id: 1,
        version: "1.5".to_string(),
    };
    repara_marcadores(&mut d);
    assert_eq!(d.marcadores[0].destino, id(1, 0));
    assert_eq!(d.marcadores[1].destino, id(1, 0));
    assert_eq!(d.marcadores[2].destino, id(1, 0));
    assert_eq!(d.marcadores[0].titulo, b"Page_1".to_vec());
}

#[test]
fn titulo_de_marcador_con_indice_decimal() {
    assert_eq!(titulo_pagina(1), b"Page_1".to_vec());
    assert_eq!(titulo_pagina(12), b"Page_12".to_vec());
    assert_eq!(titulo_pagina(205), b"Page_205".to_vec());
}

#[test]
fn documento_sin_paginas_no_lleva_marcador() {
    let d1 = documento_simple(None);
    let vacio = Documento {
        objetos: vec![
            (
                id(1, 0),
                Objeto::Diccionario(vec![
                    entrada("Type", nombre("Catalog")),
                    entrada("Pages", Objeto::Referencia(id(2, 0))),
                ]),
            ),
            (
                id(2, 0),
                Objeto::Diccionario(vec![
                    entrada("Type", nombre("Pages")),
                    entrada("Kids", Objeto::Arreglo(Vec::new())),
                    entrada("Count", Objeto::Entero(0)),
                ]),
            ),
        ],
        cola: vec![entrada("Root", Objeto::Referencia(id(1, 0)))],
        orden_paginas: Vec::new(),
        marcadores: Vec::new(),
        max_id: 2,
        version: "1.5".to_string(),
    };
    let d3 = documento_simple(None);
    let u = unir_documentos(vec![d1, vacio, d3]).unwrap();
    assert_eq!(u.paginas, 2);
    assert_eq!(u.marcadores, 2);
    assert_eq!(u.documento.marcadores[0].titulo, b"Page_1".to_vec());
    assert_eq!(u.documento.marcadores[1].titulo, b"Page_2".to_vec());
    let paginas = como_dic(busca_tabla(&u.documento.objetos, id(2, 0)).expect("raiz unida"));
    match valor(paginas, "Kids").expect("kids recalculados") {
        Objeto::Arreglo(ks) => assert_eq!(ks.len(), 2),
        _ => panic!("kids no es una lista"),
    }
}
