<?xml version="1.0" encoding="UTF-8"?>
<sbe:messageSchema xmlns:sbe="http://fixprotocol.io/2016/sbe"
                   package="market_data" id="2" version="0" byteOrder="littleEndian">
    <types>
        <composite name="messageHeader">
            <type name="blockLength" primitiveType="uint16"/>
            <type name="templateId" primitiveType="uint16"/>
            <type name="schemaId" primitiveType="uint16"/>
            <type name="version" primitiveType="uint16"/>
        </composite>
        <type name="Symbol" primitiveType="char" length="8"/>
        <enum name="Side" encodingType="char">
            <validValue name="Buy">1</validValue>
            <validValue name="Sell">2</validValue>
        </enum>
    </types>
    <sbe:message name="Add" id="1" blockLength="33">
        <field name="orderId" id="1" type="uint64" offset="0"/>
        <field name="symbol" id="2" type="Symbol" offset="8"/>
        <field name="side" id="3" type="Side" offset="16"/>
        <field name="price" id="4" type="int64" offset="17"/>
        <field name="quantity" id="5" type="uint64" offset="25"/>
    </sbe:message>
    <sbe:message name="Execute" id="2" blockLength="24">
        <field name="orderId" id="1" type="uint64" offset="0"/>
        <field name="matchNumber" id="6" type="uint64" offset="8"/>
        <field name="quantity" id="5" type="uint64" offset="16"/>
    </sbe:message>
    <sbe:message name="Delete" id="3" blockLength="8">
        <field name="orderId" id="1" type="uint64" offset="0"/>
    </sbe:message>
</sbe:messageSchema>
